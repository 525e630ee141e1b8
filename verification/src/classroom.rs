use vstd::prelude::*;

use crate::auth::clone_string;
use crate::authz::{authorize, authorize_spec, Action};
use crate::datetime::{due_date_ts, format_ts, format_ts_bytes, parse_due_date, valid_due_date};
use crate::dto::{AssignmentFile, AssignmentInfo, AssignmentResponse, ClassroomResponse,
    ClassroomRoleResponse, ClassroomUser, CreateAssignmentRequest, CreateClassroomRequest,
    CreatedAssignmentResponse, JoinClassroomRequest};
use crate::errors::ApiError;
use crate::jwt::{check_auth, check_auth_spec};
use crate::models::{Assignment, Classroom, ClassroomRole, FileKind, FileRecord,
    UserClassroomRole};
use crate::store::{lemma_filter_step, same_assignments, same_classrooms, same_files, same_grants,
    same_store, same_submissions, same_users, Store};
use crate::user::opt_token_bytes;
use vstd::utf8::encode_utf8;

verus! {

/// Relies on uuid::Uuid::new_v4 and its hyphenated Display form: a fresh
/// random identifier rendered as 36 characters. Nothing is assumed of its
/// value; the caller checks freshness against the store itself.
#[verifier::external_body]
pub(crate) fn new_uuid_string() -> (r: String)
    ensures
        r@.len() == 36,
{
    uuid::Uuid::new_v4().to_string()
}

/// How an optional due date is displayed: a fixed text when absent, the
/// formatted civil datetime when present and representable.
pub open spec fn due_display_ok(d: Option<i64>, s: Seq<char>) -> bool {
    match d {
        None => s == "No due date"@,
        Some(t) => if 0 <= t < 253402300800 {
            encode_utf8(s) == format_ts_bytes(t as int)
        } else {
            s == Seq::<char>::empty()
        },
    }
}

/// The stored name of a role, as `ClassroomRole::name` yields it.
pub open spec fn role_name_ok(role: ClassroomRole, s: Seq<char>) -> bool {
    match role {
        ClassroomRole::Creator => s == "creator"@,
        ClassroomRole::Teacher => s == "teacher"@,
        ClassroomRole::Student => s == "student"@,
    }
}

/// Builds the display string of an optional due date.
fn due_display(d: Option<i64>) -> (r: String)
    ensures
        due_display_ok(d, r@),
{
    match d {
        None => String::from_str("No due date"),
        Some(t) => format_ts(t),
    }
}

/// Creates a classroom owned by the authenticated principal, who receives
/// a teacher grant on it in the same step; its join code is a fresh random
/// identifier. Success is owed whenever the caller authenticates, exists,
/// the drawn code is fresh and the id space is not exhausted; the drawn
/// code and exhaustion are the only internal failures.
pub fn create_class(
    store: &mut Store,
    secret: &Vec<u8>,
    token: Option<&String>,
    now: i64,
    request: CreateClassroomRequest,
) -> (r: Result<String, ApiError>)
    requires
        old(store).wf(),
    ensures
        final(store).wf(),
        r is Err ==> same_store(*old(store), *final(store)),
        match check_auth_spec(secret@, opt_token_bytes(token), now) {
            Err(e) => r == Err::<String, ApiError>(e),
            Ok(c) => if !old(store).has_user(c.sub as int) {
                r == Err::<String, ApiError>(ApiError::NotFound)
            } else {
                {
                    &&& r matches Err(e) ==> e == ApiError::InternalFailure
                    &&& r matches Ok(msg) ==> {
                        let room = final(store).classrooms@.last();
                        {
                            &&& msg@ == "Classroom created successfully"@
                            &&& final(store).classrooms@ == old(store).classrooms@.push(
                                (Classroom {
                                    id: old(store).next_classroom_id,
                                    id_base64: room.id_base64,
                                    name: request.title,
                                    description: request.description,
                                    join_code: room.join_code,
                                    creator_id: c.sub,
                                    created_at: now,
                                }),
                            )
                            &&& room.id_base64@ == room.join_code@
                            &&& !old(store).has_classroom_code(room.join_code@)
                            &&& final(store).grants@ == old(store).grants@.push(
                                (UserClassroomRole {
                                    user_id: c.sub,
                                    classroom_id: old(store).next_classroom_id,
                                    role: ClassroomRole::Teacher,
                                    joined_at: now,
                                }),
                            )
                            &&& final(store).next_classroom_id == old(store).next_classroom_id + 1
                            &&& same_users(*old(store), *final(store))
                            &&& same_assignments(*old(store), *final(store))
                            &&& same_submissions(*old(store), *final(store))
                            &&& same_files(*old(store), *final(store))
                        }
                    }
                }
            },
        },
{
    let claims = match check_auth(secret, token, now) {
        Ok(c) => c,
        Err(e) => {
            return Err(e);
        },
    };
    if store.find_user(claims.sub).is_none() {
        return Err(ApiError::NotFound);
    }
    let code = new_uuid_string();
    if store.find_classroom_by_code(&code).is_some() {
        return Err(ApiError::InternalFailure);
    }
    if store.next_classroom_id == i32::MAX {
        return Err(ApiError::InternalFailure);
    }
    let code_copy = clone_string(&code);
    let id = store.insert_classroom(
        code_copy,
        request.title,
        request.description,
        code,
        claims.sub,
        now,
    );
    proof {
        assert(store.classrooms@.last().id == id);
        store.lemma_classroom_idx(store.classrooms@.len() - 1);
        let w = old(store).user_idx(claims.sub as int);
        assert(store.users@[w].id == claims.sub);
        assert forall|k: int| 0 <= k < store.grants@.len() implies (
        #[trigger] store.grants@[k]).classroom_id != id by {
            if store.grants@[k].classroom_id == id {
                let v = old(store).classroom_idx(old(store).grants@[k].classroom_id as int);
                assert(old(store).classrooms@[v].id == id);
                assert(old(store).classrooms@[v].id < old(store).next_classroom_id);
            }
        }
    }
    store.insert_grant(claims.sub, id, ClassroomRole::Teacher, now);
    Ok(String::from_str("Classroom created successfully"))
}

/// The grants of one classroom, in stored order.
pub open spec fn members_of(s: Store, c: int) -> Seq<UserClassroomRole> {
    s.grants@.filter(|g: UserClassroomRole| g.classroom_id == c)
}

/// The assignments of one classroom, in stored order.
pub open spec fn assignments_of(s: Store, c: int) -> Seq<Assignment> {
    s.assignments@.filter(|a: Assignment| a.classroom_id == c)
}

/// Returns a classroom's overview: its own fields, its creator's name, its
/// assignments and its members. Any authenticated existing principal may
/// read it; membership is not required.
pub fn get_class(store: &Store, secret: &Vec<u8>, token: Option<&String>, now: i64, id: i32) -> (r:
    Result<ClassroomResponse, ApiError>)
    requires
        store.wf(),
    ensures
        match check_auth_spec(secret@, opt_token_bytes(token), now) {
            Err(e) => r == Err::<ClassroomResponse, ApiError>(e),
            Ok(c) => if !store.has_user(c.sub as int) {
                r == Err::<ClassroomResponse, ApiError>(ApiError::NotFound)
            } else if !store.has_classroom(id as int) {
                r == Err::<ClassroomResponse, ApiError>(ApiError::NotFound)
            } else {
                let cl = store.classroom_by_id(id as int);
                let assigns = assignments_of(*store, id as int);
                let members = members_of(*store, id as int);
                r matches Ok(resp) && {
                    &&& resp.id == cl.id
                    &&& resp.title@ == cl.name@
                    &&& resp.description@ == cl.description@
                    &&& resp.join_code@ == cl.join_code@
                    &&& resp.teacher@ == store.user_by_id(cl.creator_id as int).name@
                    &&& resp.assignments@.len() == assigns.len()
                    &&& forall|k: int|
                        0 <= k < assigns.len() ==> {
                            let e = #[trigger] resp.assignments@[k];
                            e.id == assigns[k].id && e.title@ == assigns[k].title@
                                && due_display_ok(assigns[k].due_date, e.due_date@)
                        }
                    &&& resp.users@.len() == members.len()
                    &&& forall|k: int|
                        0 <= k < members.len() ==> {
                            let e = #[trigger] resp.users@[k];
                            e.name@ == store.user_by_id(members[k].user_id as int).name@
                                && role_name_ok(members[k].role, e.role@)
                        }
                }
            },
        },
{
    let claims = match check_auth(secret, token, now) {
        Ok(c) => c,
        Err(e) => {
            return Err(e);
        },
    };
    if store.find_user(claims.sub).is_none() {
        return Err(ApiError::NotFound);
    }
    let cidx = match store.find_classroom(id) {
        Some(i) => i,
        None => {
            return Err(ApiError::NotFound);
        },
    };
    let cl = &store.classrooms[cidx];
    let teacher_idx = store.find_user(cl.creator_id).unwrap();

    let ghost apred = |a: Assignment| a.classroom_id == id;
    let mut assignments: Vec<AssignmentInfo> = Vec::new();
    let na = store.assignments.len();
    let mut i: usize = 0;
    proof {
        assert(store.assignments@.subrange(0, 0) =~= Seq::<Assignment>::empty());
        assert(store.assignments@.subrange(0, 0).filter(apred) =~= Seq::<Assignment>::empty())
            by {
            reveal(Seq::filter);
        }
    }
    while i < na
        invariant
            i <= na,
            na == store.assignments@.len(),
            store.wf(),
            apred == (|a: Assignment| a.classroom_id == id),
            assignments@.len() == store.assignments@.subrange(0, i as int).filter(apred).len(),
            forall|k: int|
                0 <= k < assignments@.len() ==> {
                    let f = store.assignments@.subrange(0, i as int).filter(apred)[k];
                    let e = #[trigger] assignments@[k];
                    e.id == f.id && e.title@ == f.title@ && due_display_ok(f.due_date, e.due_date@)
                },
        decreases na - i,
    {
        proof {
            lemma_filter_step(store.assignments@, apred, i as int);
        }
        let a = &store.assignments[i];
        if a.classroom_id == id {
            let info = AssignmentInfo {
                id: a.id,
                title: clone_string(&a.title),
                due_date: due_display(a.due_date),
            };
            assignments.push(info);
        }
        i += 1;
    }
    proof {
        assert(store.assignments@.subrange(0, na as int) =~= store.assignments@);
    }

    let ghost gpred = |g: UserClassroomRole| g.classroom_id == id;
    let mut users: Vec<ClassroomUser> = Vec::new();
    let ng = store.grants.len();
    let mut j: usize = 0;
    proof {
        assert(store.grants@.subrange(0, 0) =~= Seq::<UserClassroomRole>::empty());
        assert(store.grants@.subrange(0, 0).filter(gpred) =~= Seq::<
            UserClassroomRole,
        >::empty()) by {
            reveal(Seq::filter);
        }
    }
    while j < ng
        invariant
            j <= ng,
            ng == store.grants@.len(),
            store.wf(),
            gpred == (|g: UserClassroomRole| g.classroom_id == id),
            users@.len() == store.grants@.subrange(0, j as int).filter(gpred).len(),
            forall|k: int|
                0 <= k < users@.len() ==> {
                    let f = store.grants@.subrange(0, j as int).filter(gpred)[k];
                    let e = #[trigger] users@[k];
                    e.name@ == store.user_by_id(f.user_id as int).name@ && role_name_ok(
                        f.role,
                        e.role@,
                    )
                },
        decreases ng - j,
    {
        proof {
            lemma_filter_step(store.grants@, gpred, j as int);
        }
        let g = &store.grants[j];
        if g.classroom_id == id {
            let uidx = store.find_user(g.user_id).unwrap();
            let member = ClassroomUser {
                name: clone_string(&store.users[uidx].name),
                role: g.role.name(),
            };
            users.push(member);
        }
        j += 1;
    }
    proof {
        assert(store.grants@.subrange(0, ng as int) =~= store.grants@);
    }

    Ok(
        ClassroomResponse {
            id: cl.id,
            title: clone_string(&cl.name),
            teacher: clone_string(&store.users[teacher_idx].name),
            description: clone_string(&cl.description),
            assignments,
            users,
            join_code: clone_string(&cl.join_code),
        },
    )
}

/// Reports whether the authenticated principal is a teacher of the
/// classroom: readable only after authentication, by enrolled principals;
/// a principal without a role-grant is denied membership; the answer is
/// true exactly when a live teacher grant exists.
pub fn get_class_role(
    store: &Store,
    secret: &Vec<u8>,
    token: Option<&String>,
    now: i64,
    id: i32,
) -> (r: Result<ClassroomRoleResponse, ApiError>)
    requires
        store.wf(),
    ensures
        match check_auth_spec(secret@, opt_token_bytes(token), now) {
            Err(e) => r == Err::<ClassroomRoleResponse, ApiError>(e),
            Ok(c) => if !store.has_user(c.sub as int) {
                r == Err::<ClassroomRoleResponse, ApiError>(ApiError::NotFound)
            } else if !store.has_classroom(id as int) {
                r == Err::<ClassroomRoleResponse, ApiError>(ApiError::NotFound)
            } else if !store.has_grant(c.sub as int, id as int) {
                r == Err::<ClassroomRoleResponse, ApiError>(ApiError::NotMember)
            } else {
                r == Ok::<ClassroomRoleResponse, ApiError>(
                    (ClassroomRoleResponse {
                        is_teacher: store.is_teacher_of(c.sub as int, id as int),
                    }),
                )
            },
        },
{
    let claims = match check_auth(secret, token, now) {
        Ok(c) => c,
        Err(e) => {
            return Err(e);
        },
    };
    if store.find_user(claims.sub).is_none() {
        return Err(ApiError::NotFound);
    }
    if store.find_classroom(id).is_none() {
        return Err(ApiError::NotFound);
    }
    match store.find_grant(claims.sub, id) {
        None => Err(ApiError::NotMember),
        Some(g) => {
            proof {
                store.lemma_teacher_grant(claims.sub as int, id as int);
            }
            Ok(
                ClassroomRoleResponse {
                    is_teacher: store.grants[g].role == ClassroomRole::Teacher,
                },
            )
        },
    }
}

/// Joins the authenticated principal to the classroom carrying the join
/// code, as a student. A second join of the same classroom by the same
/// principal is a conflict, and adds no second grant.
pub fn join_class(
    store: &mut Store,
    secret: &Vec<u8>,
    token: Option<&String>,
    now: i64,
    request: JoinClassroomRequest,
) -> (r: Result<String, ApiError>)
    requires
        old(store).wf(),
    ensures
        final(store).wf(),
        r is Err ==> same_store(*old(store), *final(store)),
        match check_auth_spec(secret@, opt_token_bytes(token), now) {
            Err(e) => r == Err::<String, ApiError>(e),
            Ok(c) => if !old(store).has_user(c.sub as int) {
                r == Err::<String, ApiError>(ApiError::NotFound)
            } else if !old(store).has_classroom_code(request.join_code@) {
                r == Err::<String, ApiError>(ApiError::NotFound)
            } else {
                let cl = old(store).classrooms@[old(store).classroom_code_idx(request.join_code@)];
                if old(store).has_grant(c.sub as int, cl.id as int) {
                    r == Err::<String, ApiError>(ApiError::Conflict)
                } else {
                    {
                        &&& r matches Ok(msg) && msg@ == "User was joined to classroom"@
                        &&& final(store).grants@ == old(store).grants@.push(
                            (UserClassroomRole {
                                user_id: c.sub,
                                classroom_id: cl.id,
                                role: ClassroomRole::Student,
                                joined_at: now,
                            }),
                        )
                        &&& same_users(*old(store), *final(store))
                        &&& same_classrooms(*old(store), *final(store))
                        &&& same_assignments(*old(store), *final(store))
                        &&& same_submissions(*old(store), *final(store))
                        &&& same_files(*old(store), *final(store))
                    }
                }
            },
        },
{
    let claims = match check_auth(secret, token, now) {
        Ok(c) => c,
        Err(e) => {
            return Err(e);
        },
    };
    if store.find_user(claims.sub).is_none() {
        return Err(ApiError::NotFound);
    }
    let cidx = match store.find_classroom_by_code(&request.join_code) {
        Some(i) => i,
        None => {
            return Err(ApiError::NotFound);
        },
    };
    let class_id = store.classrooms[cidx].id;
    if store.find_grant(claims.sub, class_id).is_some() {
        return Err(ApiError::Conflict);
    }
    store.insert_grant(claims.sub, class_id, ClassroomRole::Student, now);
    Ok(String::from_str("User was joined to classroom"))
}

/// Creates an assignment in a classroom. Only a teacher of the classroom
/// may do so; a malformed due date is rejected as a validation error
/// before anything is written.
pub fn create_assignment(
    store: &mut Store,
    secret: &Vec<u8>,
    token: Option<&String>,
    now: i64,
    class_id: i32,
    request: CreateAssignmentRequest,
) -> (r: Result<CreatedAssignmentResponse, ApiError>)
    requires
        old(store).wf(),
    ensures
        final(store).wf(),
        r is Err ==> same_store(*old(store), *final(store)),
        match check_auth_spec(secret@, opt_token_bytes(token), now) {
            Err(e) => r == Err::<CreatedAssignmentResponse, ApiError>(e),
            Ok(c) => match authorize_spec(
                *old(store),
                c.sub as int,
                class_id as int,
                Action::CreateAssignment,
            ) {
                Err(e) => r == Err::<CreatedAssignmentResponse, ApiError>(e),
                Ok(_) => {
                    let due = match request.due_date {
                        Some(ds) => Some(encode_utf8(ds@)),
                        None => None,
                    };
                    if due matches Some(b) && !valid_due_date(b) {
                        r == Err::<CreatedAssignmentResponse, ApiError>(ApiError::ValidationError)
                    } else {
                        {
                            &&& old(store).next_assignment_id < i32::MAX ==> r is Ok
                            &&& r matches Err(e) ==> e == ApiError::InternalFailure
                            &&& r matches Ok(resp) ==> {
                                let row = final(store).assignments@.last();
                                {
                                    &&& resp.id == old(store).next_assignment_id
                                    &&& final(store).assignments@ == old(store).assignments@.push(
                                        (Assignment {
                                            id: old(store).next_assignment_id,
                                            id_base64: row.id_base64,
                                            classroom_id: class_id,
                                            title: request.title,
                                            description: request.description,
                                            due_date: match due {
                                                Some(b) => Some(due_date_ts(b) as i64),
                                                None => None,
                                            },
                                            points: request.points,
                                            created_by: c.sub,
                                            created_at: now,
                                        }),
                                    )
                                    &&& final(store).next_assignment_id == old(
                                        store,
                                    ).next_assignment_id + 1
                                    &&& same_users(*old(store), *final(store))
                                    &&& same_classrooms(*old(store), *final(store))
                                    &&& same_grants(*old(store), *final(store))
                                    &&& same_submissions(*old(store), *final(store))
                                    &&& same_files(*old(store), *final(store))
                                }
                            }
                        }
                    }
                },
            },
        },
{
    let claims = match check_auth(secret, token, now) {
        Ok(c) => c,
        Err(e) => {
            return Err(e);
        },
    };
    if let Err(e) = authorize(store, claims.sub, class_id, Action::CreateAssignment) {
        return Err(e);
    }
    let due: Option<i64> = match &request.due_date {
        Some(ds) => {
            match parse_due_date(ds) {
                Some(ts) => Some(ts),
                None => {
                    return Err(ApiError::ValidationError);
                },
            }
        },
        None => None,
    };
    if store.next_assignment_id == i32::MAX {
        return Err(ApiError::InternalFailure);
    }
    let code = new_uuid_string();
    let id = store.insert_assignment(
        code,
        class_id,
        request.title,
        request.description,
        due,
        request.points,
        claims.sub,
        now,
    );
    Ok(CreatedAssignmentResponse { id })
}

/// The material files of an assignment, in stored order.
pub open spec fn materials_of(s: Store, a: int) -> Seq<FileRecord> {
    s.files@.filter(|f: FileRecord| f.assignment_id == a && f.kind == FileKind::Material)
}

/// The submission files one student attached to an assignment, in stored
/// order.
pub open spec fn submission_files_of(s: Store, a: int, u: int) -> Seq<FileRecord> {
    s.files@.filter(
        |f: FileRecord| f.assignment_id == a && f.user_id == u && f.kind == FileKind::Submission,
    )
}

/// The stored kind name of a file.
pub open spec fn kind_name_ok(kind: FileKind, s: Seq<char>) -> bool {
    match kind {
        FileKind::Material => s == "material"@,
        FileKind::Submission => s == "submission"@,
    }
}

/// A response file entry matches a stored file row.
pub open spec fn file_entry_matches(f: FileRecord, e: AssignmentFile) -> bool {
    &&& e.id == f.id
    &&& e.file_name@ == f.file_name@
    &&& e.content_type@ == f.content_type@
    &&& kind_name_ok(f.kind, e.file_type@)
}

/// The stored kind name of a file.
fn kind_name(kind: FileKind) -> (r: String)
    ensures
        kind_name_ok(kind, r@),
{
    match kind {
        FileKind::Material => String::from_str("material"),
        FileKind::Submission => String::from_str("submission"),
    }
}

/// Collects the files of an assignment that satisfy a kind and, when
/// given, an owner.
pub(crate) fn collect_files(store: &Store, a: i32, owner: Option<i32>, kind: FileKind) -> (r: Vec<
    AssignmentFile,
>)
    requires
        store.wf(),
    ensures
        ({
            let f = match owner {
                None => materials_of(*store, a as int),
                Some(u) => submission_files_of(*store, a as int, u as int),
            };
            r@.len() == f.len() && forall|k: int|
                0 <= k < f.len() ==> file_entry_matches(f[k], #[trigger] r@[k])
        }),
{
    let ghost pred = match owner {
        None => |f: FileRecord| f.assignment_id == a && f.kind == FileKind::Material,
        Some(u) => |f: FileRecord|
            f.assignment_id == a && f.user_id == u && f.kind == FileKind::Submission,
    };
    let mut out: Vec<AssignmentFile> = Vec::new();
    let n = store.files.len();
    let mut i: usize = 0;
    proof {
        assert(store.files@.subrange(0, 0) =~= Seq::<FileRecord>::empty());
        assert(store.files@.subrange(0, 0).filter(pred) =~= Seq::<FileRecord>::empty()) by {
            reveal(Seq::filter);
        }
    }
    while i < n
        invariant
            i <= n,
            n == store.files@.len(),
            store.wf(),
            pred == (match owner {
                None => |f: FileRecord| f.assignment_id == a && f.kind == FileKind::Material,
                Some(u) => |f: FileRecord|
                    f.assignment_id == a && f.user_id == u && f.kind == FileKind::Submission,
            }),
            out@.len() == store.files@.subrange(0, i as int).filter(pred).len(),
            forall|k: int|
                0 <= k < out@.len() ==> file_entry_matches(
                    store.files@.subrange(0, i as int).filter(pred)[k],
                    #[trigger] out@[k],
                ),
        decreases n - i,
    {
        proof {
            lemma_filter_step(store.files@, pred, i as int);
        }
        let f = &store.files[i];
        let keep = match owner {
            None => f.assignment_id == a && matches!(f.kind, FileKind::Material),
            Some(u) => f.assignment_id == a && f.user_id == u && matches!(
                f.kind,
                FileKind::Submission,
            ),
        };
        if keep {
            let entry = AssignmentFile {
                id: f.id,
                file_name: clone_string(&f.file_name),
                content_type: clone_string(&f.content_type),
                file_type: kind_name(f.kind),
            };
            out.push(entry);
        }
        i += 1;
    }
    proof {
        assert(store.files@.subrange(0, n as int) =~= store.files@);
    }
    out
}

/// Returns one assignment as the authenticated principal sees it: the
/// assignment's fields, its materials, the principal's own submission
/// files, whether they currently have a submission, and their grade when
/// they do. Requires membership of the classroom.
pub fn get_assignment(
    store: &Store,
    secret: &Vec<u8>,
    token: Option<&String>,
    now: i64,
    c_id: i32,
    a_id: i32,
) -> (r: Result<AssignmentResponse, ApiError>)
    requires
        store.wf(),
    ensures
        match check_auth_spec(secret@, opt_token_bytes(token), now) {
            Err(e) => r == Err::<AssignmentResponse, ApiError>(e),
            Ok(c) => match authorize_spec(
                *store,
                c.sub as int,
                c_id as int,
                Action::ReadAssignment,
            ) {
                Err(e) => r == Err::<AssignmentResponse, ApiError>(e),
                Ok(_) => if !(store.has_assignment(a_id as int) && store.assignment_by_id(
                    a_id as int,
                ).classroom_id == c_id) {
                    r == Err::<AssignmentResponse, ApiError>(ApiError::NotFound)
                } else {
                    let a = store.assignment_by_id(a_id as int);
                    let mats = materials_of(*store, a_id as int);
                    let subs = submission_files_of(*store, a_id as int, c.sub as int);
                    let submitted = store.has_submission_for(a_id as int, c.sub as int)
                        && store.submission_for(a_id as int, c.sub as int).submitted_at is Some;
                    r matches Ok(resp) && {
                        &&& resp.id == a.id
                        &&& resp.class_id == a.classroom_id
                        &&& resp.title@ == a.title@
                        &&& resp.class_title@ == store.classroom_by_id(c_id as int).name@
                        &&& resp.description@ == a.description@
                        &&& due_display_ok(a.due_date, resp.due_date@)
                        &&& resp.points == a.points
                        &&& resp.materials@.len() == mats.len()
                        &&& forall|k: int|
                            0 <= k < mats.len() ==> file_entry_matches(
                                mats[k],
                                #[trigger] resp.materials@[k],
                            )
                        &&& resp.submission_files@.len() == subs.len()
                        &&& forall|k: int|
                            0 <= k < subs.len() ==> file_entry_matches(
                                subs[k],
                                #[trigger] resp.submission_files@[k],
                            )
                        &&& resp.is_submitted == submitted
                        &&& resp.grade == if submitted {
                            store.submission_for(a_id as int, c.sub as int).grade
                        } else {
                            None
                        }
                    }
                },
            },
        },
{
    let claims = match check_auth(secret, token, now) {
        Ok(c) => c,
        Err(e) => {
            return Err(e);
        },
    };
    if let Err(e) = authorize(store, claims.sub, c_id, Action::ReadAssignment) {
        return Err(e);
    }
    let aidx = match store.find_assignment(a_id) {
        Some(i) => i,
        None => {
            return Err(ApiError::NotFound);
        },
    };
    if store.assignments[aidx].classroom_id != c_id {
        return Err(ApiError::NotFound);
    }
    let cidx = store.find_classroom(c_id).unwrap();
    let materials = collect_files(store, a_id, None, FileKind::Material);
    let submission_files = collect_files(store, a_id, Some(claims.sub), FileKind::Submission);
    let (is_submitted, grade) = match store.find_submission_for(a_id, claims.sub) {
        Some(sidx) => {
            let row = &store.submissions[sidx];
            if row.submitted_at.is_some() {
                (true, row.grade)
            } else {
                (false, None)
            }
        },
        None => (false, None),
    };
    let a = &store.assignments[aidx];
    Ok(
        AssignmentResponse {
            id: a.id,
            class_id: a.classroom_id,
            title: clone_string(&a.title),
            class_title: clone_string(&store.classrooms[cidx].name),
            description: clone_string(&a.description),
            due_date: due_display(a.due_date),
            points: a.points,
            materials,
            submission_files,
            is_submitted,
            grade,
        },
    )
}

} // verus!
