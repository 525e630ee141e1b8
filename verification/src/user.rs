use vstd::prelude::*;

use crate::auth::clone_string;
use crate::dto::{ClassroomListResponse, EditProfileRequest, UserClassroomResponse,
    UserProfileResponse};
use crate::errors::ApiError;
use crate::jwt::{check_auth, check_auth_spec};
use crate::models::{Classroom, ClassroomRole, User, UserClassroomRole};
use crate::store::{lemma_filter_step, same_classrooms, same_files, same_grants, same_assignments,
    same_store, same_submissions, Store};
use vstd::utf8::encode_utf8;

verus! {

/// The byte view of an optional cookie value.
pub open spec fn opt_token_bytes(token: Option<&String>) -> Option<Seq<u8>> {
    match token {
        Some(t) => Some(encode_utf8(t@)),
        None => None,
    }
}

/// Confirms that the authenticated principal still exists.
pub fn get_user(store: &Store, secret: &Vec<u8>, token: Option<&String>, now: i64) -> (r: Result<
    (),
    ApiError,
>)
    requires
        store.wf(),
    ensures
        r == match check_auth_spec(secret@, opt_token_bytes(token), now) {
            Err(e) => Err::<(), ApiError>(e),
            Ok(c) => if store.has_user(c.sub as int) {
                Ok::<(), ApiError>(())
            } else {
                Err::<(), ApiError>(ApiError::NotFound)
            },
        },
{
    let claims = match check_auth(secret, token, now) {
        Ok(c) => c,
        Err(e) => {
            return Err(e);
        },
    };
    match store.find_user(claims.sub) {
        Some(_) => Ok(()),
        None => Err(ApiError::NotFound),
    }
}

/// Returns the authenticated principal's profile.
pub fn profile(store: &Store, secret: &Vec<u8>, token: Option<&String>, now: i64) -> (r: Result<
    UserProfileResponse,
    ApiError,
>)
    requires
        store.wf(),
    ensures
        match check_auth_spec(secret@, opt_token_bytes(token), now) {
            Err(e) => r == Err::<UserProfileResponse, ApiError>(e),
            Ok(c) => if store.has_user(c.sub as int) {
                {
                    let u = store.user_by_id(c.sub as int);
                    r matches Ok(p) && p.id == u.id && p.name@ == u.name@ && p.email@ == u.email@
                }
            } else {
                r == Err::<UserProfileResponse, ApiError>(ApiError::NotFound)
            },
        },
{
    let claims = match check_auth(secret, token, now) {
        Ok(c) => c,
        Err(e) => {
            return Err(e);
        },
    };
    let idx = match store.find_user(claims.sub) {
        Some(i) => i,
        None => {
            return Err(ApiError::NotFound);
        },
    };
    Ok(
        UserProfileResponse {
            id: store.users[idx].id,
            name: clone_string(&store.users[idx].name),
            email: clone_string(&store.users[idx].email),
        },
    )
}

/// Renames the authenticated principal; the avatar field of the request is
/// carried for interface compatibility and ignored.
pub fn edit_profile(
    store: &mut Store,
    secret: &Vec<u8>,
    token: Option<&String>,
    now: i64,
    request: EditProfileRequest,
) -> (r: Result<UserProfileResponse, ApiError>)
    requires
        old(store).wf(),
    ensures
        final(store).wf(),
        r is Err ==> same_store(*old(store), *final(store)),
        match check_auth_spec(secret@, opt_token_bytes(token), now) {
            Err(e) => r == Err::<UserProfileResponse, ApiError>(e),
            Ok(c) => if old(store).has_user(c.sub as int) {
                {
                    let i = old(store).user_idx(c.sub as int);
                    let u = old(store).users@[i];
                    {
                        &&& final(store).users@ == old(store).users@.update(
                            i,
                            (User { name: request.name, ..u }),
                        )
                        &&& final(store).next_user_id == old(store).next_user_id
                        &&& same_classrooms(*old(store), *final(store))
                        &&& same_grants(*old(store), *final(store))
                        &&& same_assignments(*old(store), *final(store))
                        &&& same_submissions(*old(store), *final(store))
                        &&& same_files(*old(store), *final(store))
                        &&& r matches Ok(p) && p.id == u.id && p.name@ == request.name@ && p.email@
                            == u.email@
                    }
                }
            } else {
                r == Err::<UserProfileResponse, ApiError>(ApiError::NotFound)
            },
        },
{
    let claims = match check_auth(secret, token, now) {
        Ok(c) => c,
        Err(e) => {
            return Err(e);
        },
    };
    let idx = match store.find_user(claims.sub) {
        Some(i) => i,
        None => {
            return Err(ApiError::NotFound);
        },
    };
    let name_copy = clone_string(&request.name);
    store.update_user_name(idx, request.name);
    Ok(
        UserProfileResponse {
            id: store.users[idx].id,
            name: name_copy,
            email: clone_string(&store.users[idx].email),
        },
    )
}

/// Whether one optional due date comes strictly before another, a missing
/// one counting as latest.
pub open spec fn better_due(a: Option<i64>, b: Option<i64>) -> bool {
    match (a, b) {
        (Some(x), Some(y)) => x < y,
        (Some(_), None) => true,
        _ => false,
    }
}

/// The index of a classroom's earliest-due assignment at or after position
/// `i`, earlier rows winning ties; a missing due date counts as latest.
pub open spec fn best_assignment_from(s: Store, c: int, i: int) -> Option<int>
    decreases s.assignments@.len() - i,
{
    if i < 0 || i >= s.assignments@.len() {
        None
    } else {
        let rest = best_assignment_from(s, c, i + 1);
        if s.assignments@[i].classroom_id != c {
            rest
        } else {
            match rest {
                None => Some(i),
                Some(j) => if better_due(s.assignments@[j].due_date, s.assignments@[i].due_date) {
                    Some(j)
                } else {
                    Some(i)
                },
            }
        }
    }
}

/// The index of a classroom's earliest assignment strictly due after `now`,
/// at or after position `i`, earlier rows winning ties.
pub open spec fn best_future_from(s: Store, c: int, now: i64, i: int) -> Option<int>
    decreases s.assignments@.len() - i,
{
    if i < 0 || i >= s.assignments@.len() {
        None
    } else {
        let rest = best_future_from(s, c, now, i + 1);
        if s.assignments@[i].classroom_id != c || !(s.assignments@[i].due_date matches Some(d)
            && d > now) {
            rest
        } else {
            match rest {
                None => Some(i),
                Some(j) => if better_due(s.assignments@[j].due_date, s.assignments@[i].due_date) {
                    Some(j)
                } else {
                    Some(i)
                },
            }
        }
    }
}

/// A row a classroom list entry is built from.
pub open spec fn student_grants_of(s: Store, u: int) -> Seq<UserClassroomRole> {
    s.grants@.filter(
        |g: UserClassroomRole| g.user_id == u && g.role == ClassroomRole::Student,
    )
}

pub open spec fn classrooms_created_by(s: Store, u: int) -> Seq<Classroom> {
    s.classrooms@.filter(|c: Classroom| c.creator_id == u)
}

/// One entry of the enrolled list matches its grant's classroom: the
/// classroom's id and title, its creator's name, and the title of its
/// earliest assignment still due after `now`.
pub open spec fn enrolled_entry_matches(
    s: Store,
    now: i64,
    g: UserClassroomRole,
    e: ClassroomListResponse,
) -> bool {
    let c = s.classroom_by_id(g.classroom_id as int);
    {
        &&& e.id == c.id
        &&& e.title@ == c.name@
        &&& e.teacher@ == s.user_by_id(c.creator_id as int).name@
        &&& match best_future_from(s, c.id as int, now, 0) {
            None => e.upcoming_assignment is None,
            Some(j) => e.upcoming_assignment matches Some(t) && t@ == s.assignments@[j].title@,
        }
    }
}

/// One entry of the teaching list matches its classroom: id and title, the
/// creator's name, and the title of its earliest-due assignment.
pub open spec fn teaching_entry_matches(s: Store, c: Classroom, e: ClassroomListResponse) -> bool {
    &&& e.id == c.id
    &&& e.title@ == c.name@
    &&& e.teacher@ == s.user_by_id(c.creator_id as int).name@
    &&& match best_assignment_from(s, c.id as int, 0) {
        None => e.upcoming_assignment is None,
        Some(j) => e.upcoming_assignment matches Some(t) && t@ == s.assignments@[j].title@,
    }
}

/// Finds the earliest-due assignment of a classroom, restricted to those
/// due after `now` when `only_future` is set.
fn find_best_assignment(store: &Store, c: i32, now: i64, only_future: bool) -> (r: Option<usize>)
    requires
        store.wf(),
    ensures
        ({
            let spec_r = if only_future {
                best_future_from(*store, c as int, now, 0)
            } else {
                best_assignment_from(*store, c as int, 0)
            };
            match r {
                None => spec_r is None,
                Some(k) => spec_r == Some(k as int) && k < store.assignments@.len(),
            }
        }),
{
    let n = store.assignments.len();
    let mut i: usize = n;
    let mut best: Option<usize> = None;
    while i > 0
        invariant
            i <= n,
            n == store.assignments@.len(),
            store.wf(),
            match best {
                None => (if only_future {
                    best_future_from(*store, c as int, now, i as int)
                } else {
                    best_assignment_from(*store, c as int, i as int)
                }) is None,
                Some(k) => (if only_future {
                    best_future_from(*store, c as int, now, i as int)
                } else {
                    best_assignment_from(*store, c as int, i as int)
                }) == Some(k as int) && k < n,
            },
        decreases i,
    {
        i = i - 1;
        let a = &store.assignments[i];
        let eligible = if only_future {
            a.classroom_id == c && match a.due_date {
                Some(d) => d > now,
                None => false,
            }
        } else {
            a.classroom_id == c
        };
        if eligible {
            let take = match best {
                None => true,
                Some(j) => {
                    let bd = store.assignments[j].due_date;
                    let ad = store.assignments[i].due_date;
                    !due_before(bd, ad)
                },
            };
            if take {
                best = Some(i);
            }
        }
    }
    best
}

/// Whether `a` comes strictly before `b`, matching `better_due`.
fn due_before(a: Option<i64>, b: Option<i64>) -> (r: bool)
    ensures
        r == better_due(a, b),
{
    match (a, b) {
        (Some(x), Some(y)) => x < y,
        (Some(_), None) => true,
        _ => false,
    }
}

/// Builds the classroom list entry for a classroom.
fn entry_for(store: &Store, cidx: usize, now: i64, only_future: bool) -> (r: ClassroomListResponse)
    requires
        store.wf(),
        cidx < store.classrooms@.len(),
    ensures
        ({
            let c = store.classrooms@[cidx as int];
            {
                &&& r.id == c.id
                &&& r.title@ == c.name@
                &&& r.teacher@ == store.user_by_id(c.creator_id as int).name@
                &&& {
                    let spec_b = if only_future {
                        best_future_from(*store, c.id as int, now, 0)
                    } else {
                        best_assignment_from(*store, c.id as int, 0)
                    };
                    match spec_b {
                        None => r.upcoming_assignment is None,
                        Some(j) => r.upcoming_assignment matches Some(t) && t@
                            == store.assignments@[j].title@,
                    }
                }
            }
        }),
{
    let c = &store.classrooms[cidx];
    let teacher_idx = store.find_user(c.creator_id).unwrap();
    let upcoming = match find_best_assignment(store, c.id, now, only_future) {
        None => None,
        Some(k) => Some(clone_string(&store.assignments[k].title)),
    };
    ClassroomListResponse {
        id: c.id,
        title: clone_string(&c.name),
        teacher: clone_string(&store.users[teacher_idx].name),
        upcoming_assignment: upcoming,
    }
}

/// Lists the classrooms the authenticated principal is enrolled in as a
/// student and those they created, each with its next assignment.
pub fn list_classes(store: &Store, secret: &Vec<u8>, token: Option<&String>, now: i64) -> (r:
    Result<UserClassroomResponse, ApiError>)
    requires
        store.wf(),
    ensures
        match check_auth_spec(secret@, opt_token_bytes(token), now) {
            Err(e) => r == Err::<UserClassroomResponse, ApiError>(e),
            Ok(c) => if store.has_user(c.sub as int) {
                r matches Ok(resp) && {
                    let u = c.sub as int;
                    let sg = student_grants_of(*store, u);
                    let tc = classrooms_created_by(*store, u);
                    {
                        &&& resp.enrolled_classes@.len() == sg.len()
                        &&& forall|k: int|
                            0 <= k < sg.len() ==> enrolled_entry_matches(
                                *store,
                                now,
                                sg[k],
                                #[trigger] resp.enrolled_classes@[k],
                            )
                        &&& resp.teaching_classes@.len() == tc.len()
                        &&& forall|k: int|
                            0 <= k < tc.len() ==> teaching_entry_matches(
                                *store,
                                tc[k],
                                #[trigger] resp.teaching_classes@[k],
                            )
                    }
                }
            } else {
                r == Err::<UserClassroomResponse, ApiError>(ApiError::NotFound)
            },
        },
{
    let claims = match check_auth(secret, token, now) {
        Ok(c) => c,
        Err(e) => {
            return Err(e);
        },
    };
    if store.find_user(claims.sub).is_none() {
        return Err(ApiError::NotFound);
    }
    let u = claims.sub;
    let ghost sgpred = |g: UserClassroomRole| g.user_id == u && g.role == ClassroomRole::Student;
    let mut enrolled: Vec<ClassroomListResponse> = Vec::new();
    let ng = store.grants.len();
    let mut i: usize = 0;
    proof {
        assert(store.grants@.subrange(0, 0) =~= Seq::<UserClassroomRole>::empty());
        assert(store.grants@.subrange(0, 0).filter(sgpred) =~= Seq::<
            UserClassroomRole,
        >::empty()) by {
            reveal(Seq::filter);
        }
    }
    while i < ng
        invariant
            i <= ng,
            ng == store.grants@.len(),
            store.wf(),
            store.has_user(u as int),
            sgpred == (|g: UserClassroomRole| g.user_id == u && g.role == ClassroomRole::Student),
            enrolled@.len() == store.grants@.subrange(0, i as int).filter(sgpred).len(),
            forall|k: int|
                0 <= k < enrolled@.len() ==> enrolled_entry_matches(
                    *store,
                    now,
                    store.grants@.subrange(0, i as int).filter(sgpred)[k],
                    #[trigger] enrolled@[k],
                ),
        decreases ng - i,
    {
        proof {
            lemma_filter_step(store.grants@, sgpred, i as int);
        }
        let g = &store.grants[i];
        if g.user_id == u && matches!(g.role, ClassroomRole::Student) {
            let cidx = store.find_classroom(g.classroom_id).unwrap();
            let entry = entry_for(store, cidx, now, true);
            enrolled.push(entry);
        }
        i += 1;
    }
    proof {
        assert(store.grants@.subrange(0, ng as int) =~= store.grants@);
    }
    let ghost tcpred = |c: Classroom| c.creator_id == u;
    let mut teaching: Vec<ClassroomListResponse> = Vec::new();
    let nc = store.classrooms.len();
    let mut j: usize = 0;
    proof {
        assert(store.classrooms@.subrange(0, 0) =~= Seq::<Classroom>::empty());
        assert(store.classrooms@.subrange(0, 0).filter(tcpred) =~= Seq::<Classroom>::empty()) by {
            reveal(Seq::filter);
        }
    }
    while j < nc
        invariant
            j <= nc,
            nc == store.classrooms@.len(),
            store.wf(),
            tcpred == (|c: Classroom| c.creator_id == u),
            teaching@.len() == store.classrooms@.subrange(0, j as int).filter(tcpred).len(),
            forall|k: int|
                0 <= k < teaching@.len() ==> teaching_entry_matches(
                    *store,
                    store.classrooms@.subrange(0, j as int).filter(tcpred)[k],
                    #[trigger] teaching@[k],
                ),
        decreases nc - j,
    {
        proof {
            lemma_filter_step(store.classrooms@, tcpred, j as int);
        }
        if store.classrooms[j].creator_id == u {
            let entry = entry_for(store, j, now, false);
            teaching.push(entry);
        }
        j += 1;
    }
    proof {
        assert(store.classrooms@.subrange(0, nc as int) =~= store.classrooms@);
    }
    Ok(UserClassroomResponse { enrolled_classes: enrolled, teaching_classes: teaching })
}

} // verus!
