use vstd::prelude::*;

use crate::auth::clone_string;
use crate::authz::{authorize, authorize_spec, Action};
use crate::classroom::{file_entry_matches, submission_files_of};
use crate::datetime::format_ts_bytes;
use crate::dto::{GradeSubmissionRequest, SubmissionInfo, SubmissionResponse, UploadedFile};
use crate::errors::ApiError;
use crate::jwt::{check_auth, check_auth_spec};
use crate::models::{FileKind, FileRecord, Submission};
use crate::store::{lemma_filter_step, same_assignments, same_classrooms, same_files, same_grants,
    same_store, same_submissions, same_users, Store};
use crate::user::opt_token_bytes;
use vstd::utf8::encode_utf8;

verus! {

/// How an optional timestamp appears in a response: absent stays absent, a
/// representable one is formatted, and one outside 1970..=9999 formats as
/// the empty string.
pub open spec fn opt_ts_display_ok(d: Option<i64>, o: Option<String>) -> bool {
    match (d, o) {
        (None, None) => true,
        (Some(t), Some(text)) => if 0 <= t < 253402300800 {
            encode_utf8(text@) == format_ts_bytes(t as int)
        } else {
            text@ == Seq::<char>::empty()
        },
        _ => false,
    }
}

/// Builds the display form of an optional timestamp.
fn opt_ts_display(d: Option<i64>) -> (r: Option<String>)
    ensures
        opt_ts_display_ok(d, r),
{
    match d {
        None => None,
        Some(t) => Some(crate::datetime::format_ts(t)),
    }
}

/// Whether a submission row with the given id hangs under the given
/// classroom.
pub open spec fn submission_in_class(s: Store, submission_id: int, c: int) -> bool {
    &&& s.has_submission(submission_id)
    &&& s.has_assignment(s.submission_by_id(submission_id).assignment_id as int)
    &&& s.assignment_by_id(s.submission_by_id(submission_id).assignment_id as int).classroom_id
        == c
}

/// Finds the row of a submission id when it hangs under the classroom.
fn find_submission_in_class(store: &Store, submission_id: i32, c: i32) -> (r: Option<usize>)
    requires
        store.wf(),
    ensures
        match r {
            Some(i) => submission_in_class(*store, submission_id as int, c as int) && i
                < store.submissions@.len() && store.submission_idx(submission_id as int)
                == i as int && store.submissions@[i as int].id == submission_id,
            None => !submission_in_class(*store, submission_id as int, c as int),
        },
{
    let sidx = match store.find_submission(submission_id) {
        Some(i) => i,
        None => {
            return None;
        },
    };
    let aidx = store.find_assignment(store.submissions[sidx].assignment_id).unwrap();
    if store.assignments[aidx].classroom_id == c {
        Some(sidx)
    } else {
        None
    }
}

/// Grades a submission: only a teacher of the classroom may grade, the
/// submission must hang under that classroom, and on success the row gets
/// the grade value (possibly absent, for "graded with no score"), the
/// graded flag, the grading time and the grader, its submission timestamp
/// untouched; nothing else changes.
pub fn grade_submission(
    store: &mut Store,
    secret: &Vec<u8>,
    token: Option<&String>,
    now: i64,
    c_id: i32,
    s_id: i32,
    request: GradeSubmissionRequest,
) -> (r: Result<String, ApiError>)
    requires
        old(store).wf(),
    ensures
        final(store).wf(),
        r is Err ==> same_store(*old(store), *final(store)),
        match check_auth_spec(secret@, opt_token_bytes(token), now) {
            Err(e) => r == Err::<String, ApiError>(e),
            Ok(c) => match authorize_spec(
                *old(store),
                c.sub as int,
                c_id as int,
                Action::GradeSubmission,
            ) {
                Err(e) => r == Err::<String, ApiError>(e),
                Ok(_) => if !submission_in_class(*old(store), s_id as int, c_id as int) {
                    r == Err::<String, ApiError>(ApiError::NotFound)
                } else {
                    {
                        &&& r matches Ok(msg) && msg@ == "Submission graded successfully"@
                        &&& final(store).submissions@ == old(store).submissions@.update(
                            old(store).submission_idx(s_id as int),
                            (Submission {
                                is_graded: true,
                                grade: request.grade,
                                graded_at: Some(now),
                                graded_by: Some(c.sub),
                                ..old(store).submissions@[old(store).submission_idx(s_id as int)]
                            }),
                        )
                        &&& final(store).next_submission_id == old(store).next_submission_id
                        &&& same_users(*old(store), *final(store))
                        &&& same_classrooms(*old(store), *final(store))
                        &&& same_grants(*old(store), *final(store))
                        &&& same_assignments(*old(store), *final(store))
                        &&& same_files(*old(store), *final(store))
                    }
                },
            },
        },
{
    let claims = match check_auth(secret, token, now) {
        Ok(c) => c,
        Err(e) => {
            return Err(e);
        },
    };
    if let Err(e) = authorize(store, claims.sub, c_id, Action::GradeSubmission) {
        return Err(e);
    }
    let sidx = match find_submission_in_class(store, s_id, c_id) {
        Some(i) => i,
        None => {
            return Err(ApiError::NotFound);
        },
    };
    store.set_submission_grade(sidx, request.grade, claims.sub, now);
    Ok(String::from_str("Submission graded successfully"))
}

/// Cancels a grade: only a teacher of the classroom may do so, and on
/// success every grading field is cleared and the submission timestamp is
/// cleared with them, collapsing the record to "no submission"; nothing
/// else changes.
pub fn cancel_grade(
    store: &mut Store,
    secret: &Vec<u8>,
    token: Option<&String>,
    now: i64,
    c_id: i32,
    s_id: i32,
) -> (r: Result<String, ApiError>)
    requires
        old(store).wf(),
    ensures
        final(store).wf(),
        r is Err ==> same_store(*old(store), *final(store)),
        match check_auth_spec(secret@, opt_token_bytes(token), now) {
            Err(e) => r == Err::<String, ApiError>(e),
            Ok(c) => match authorize_spec(
                *old(store),
                c.sub as int,
                c_id as int,
                Action::CancelGrade,
            ) {
                Err(e) => r == Err::<String, ApiError>(e),
                Ok(_) => if !submission_in_class(*old(store), s_id as int, c_id as int) {
                    r == Err::<String, ApiError>(ApiError::NotFound)
                } else {
                    {
                        &&& r matches Ok(msg) && msg@ == "Grade canceled successfully"@
                        &&& final(store).submissions@ == old(store).submissions@.update(
                            old(store).submission_idx(s_id as int),
                            (Submission {
                                is_graded: false,
                                grade: None,
                                graded_at: None,
                                graded_by: None,
                                submitted_at: None,
                                ..old(store).submissions@[old(store).submission_idx(s_id as int)]
                            }),
                        )
                        &&& final(store).next_submission_id == old(store).next_submission_id
                        &&& same_users(*old(store), *final(store))
                        &&& same_classrooms(*old(store), *final(store))
                        &&& same_grants(*old(store), *final(store))
                        &&& same_assignments(*old(store), *final(store))
                        &&& same_files(*old(store), *final(store))
                    }
                },
            },
        },
{
    let claims = match check_auth(secret, token, now) {
        Ok(c) => c,
        Err(e) => {
            return Err(e);
        },
    };
    if let Err(e) = authorize(store, claims.sub, c_id, Action::CancelGrade) {
        return Err(e);
    }
    let sidx = match find_submission_in_class(store, s_id, c_id) {
        Some(i) => i,
        None => {
            return Err(ApiError::NotFound);
        },
    };
    store.clear_submission_grade(sidx);
    Ok(String::from_str("Grade canceled successfully"))
}

/// Cancels the authenticated principal's own submission to an assignment:
/// only a member of the classroom may cancel, and the row is removed
/// outright; its files are not touched.
pub fn cancel_submission(
    store: &mut Store,
    secret: &Vec<u8>,
    token: Option<&String>,
    now: i64,
    c_id: i32,
    a_id: i32,
) -> (r: Result<String, ApiError>)
    requires
        old(store).wf(),
    ensures
        final(store).wf(),
        r is Err ==> same_store(*old(store), *final(store)),
        match check_auth_spec(secret@, opt_token_bytes(token), now) {
            Err(e) => r == Err::<String, ApiError>(e),
            Ok(c) => match authorize_spec(
                *old(store),
                c.sub as int,
                c_id as int,
                Action::CancelSubmission,
            ) {
                Err(e) => r == Err::<String, ApiError>(e),
                Ok(_) => if !old(store).has_submission_for(a_id as int, c.sub as int) {
                    r == Err::<String, ApiError>(ApiError::NotFound)
                } else {
                    {
                        &&& r matches Ok(msg) && msg@ == "Submission was canceled"@
                        &&& final(store).submissions@ == old(store).submissions@.remove(
                            old(store).submission_for_idx(a_id as int, c.sub as int),
                        )
                        &&& final(store).next_submission_id == old(store).next_submission_id
                        &&& same_users(*old(store), *final(store))
                        &&& same_classrooms(*old(store), *final(store))
                        &&& same_grants(*old(store), *final(store))
                        &&& same_assignments(*old(store), *final(store))
                        &&& same_files(*old(store), *final(store))
                    }
                },
            },
        },
{
    let claims = match check_auth(secret, token, now) {
        Ok(c) => c,
        Err(e) => {
            return Err(e);
        },
    };
    if let Err(e) = authorize(store, claims.sub, c_id, Action::CancelSubmission) {
        return Err(e);
    }
    let sidx = match store.find_submission_for(a_id, claims.sub) {
        Some(i) => i,
        None => {
            return Err(ApiError::NotFound);
        },
    };
    store.remove_submission(sidx);
    Ok(String::from_str("Submission was canceled"))
}

/// Deletes a file row of an assignment and hands back its storage path so
/// the caller can best-effort remove the stored bytes. Any authenticated
/// existing principal may delete a file it can name.
pub fn delete_assignment_file(
    store: &mut Store,
    secret: &Vec<u8>,
    token: Option<&String>,
    now: i64,
    c_id: i32,
    a_id: i32,
    f_id: i32,
) -> (r: Result<String, ApiError>)
    requires
        old(store).wf(),
    ensures
        final(store).wf(),
        r is Err ==> same_store(*old(store), *final(store)),
        match check_auth_spec(secret@, opt_token_bytes(token), now) {
            Err(e) => r == Err::<String, ApiError>(e),
            Ok(c) => if !old(store).has_user(c.sub as int) {
                r == Err::<String, ApiError>(ApiError::NotFound)
            } else if !(old(store).has_file(f_id as int) && old(store).file_by_id(
                f_id as int,
            ).assignment_id == a_id) {
                r == Err::<String, ApiError>(ApiError::NotFound)
            } else {
                {
                    &&& r matches Ok(path) && path@ == old(store).file_by_id(
                        f_id as int,
                    ).file_path@
                    &&& final(store).files@ == old(store).files@.remove(
                        old(store).file_idx(f_id as int),
                    )
                    &&& final(store).next_file_id == old(store).next_file_id
                    &&& same_users(*old(store), *final(store))
                    &&& same_classrooms(*old(store), *final(store))
                    &&& same_grants(*old(store), *final(store))
                    &&& same_assignments(*old(store), *final(store))
                    &&& same_submissions(*old(store), *final(store))
                }
            },
        },
{
    let claims = match check_auth(secret, token, now) {
        Ok(c) => c,
        Err(e) => {
            return Err(e);
        },
    };
    if store.find_user(claims.sub).is_none() {
        return Err(ApiError::NotFound);
    }
    let fidx = match store.find_file(f_id) {
        Some(i) => i,
        None => {
            return Err(ApiError::NotFound);
        },
    };
    if store.files[fidx].assignment_id != a_id {
        return Err(ApiError::NotFound);
    }
    let path = clone_string(&store.files[fidx].file_path);
    store.remove_file(fidx);
    Ok(path)
}

/// Whether a stored file is a downloadable file of the given kind under
/// the given classroom.
pub open spec fn file_in_class(s: Store, f_id: int, c: int, kind: FileKind) -> bool {
    &&& s.has_file(f_id)
    &&& s.file_by_id(f_id).kind == kind
    &&& s.has_assignment(s.file_by_id(f_id).assignment_id as int)
    &&& s.assignment_by_id(s.file_by_id(f_id).assignment_id as int).classroom_id == c
}

/// Looks a downloadable file up by id, kind and classroom.
fn find_file_in_class(store: &Store, f_id: i32, c: i32, kind: FileKind) -> (r: Option<usize>)
    requires
        store.wf(),
    ensures
        match r {
            Some(i) => file_in_class(*store, f_id as int, c as int, kind) && i
                < store.files@.len() && store.file_idx(f_id as int) == i as int,
            None => !file_in_class(*store, f_id as int, c as int, kind),
        },
{
    let fidx = match store.find_file(f_id) {
        Some(i) => i,
        None => {
            return None;
        },
    };
    if !(store.files[fidx].kind == kind) {
        return None;
    }
    let aidx = store.find_assignment(store.files[fidx].assignment_id).unwrap();
    if store.assignments[aidx].classroom_id == c {
        Some(fidx)
    } else {
        None
    }
}

/// Serves a submission file for download: the file must be a submission
/// file under the classroom, and only a teacher of the classroom may
/// download it; the caller receives the stored name, content type and
/// path.
pub fn download_submission_file(
    store: &Store,
    secret: &Vec<u8>,
    token: Option<&String>,
    now: i64,
    c_id: i32,
    f_id: i32,
) -> (r: Result<(String, String, String), ApiError>)
    requires
        store.wf(),
    ensures
        match check_auth_spec(secret@, opt_token_bytes(token), now) {
            Err(e) => r == Err::<(String, String, String), ApiError>(e),
            Ok(c) => if !store.has_user(c.sub as int) {
                r == Err::<(String, String, String), ApiError>(ApiError::NotFound)
            } else if !file_in_class(*store, f_id as int, c_id as int, FileKind::Submission) {
                r == Err::<(String, String, String), ApiError>(ApiError::NotFound)
            } else {
                match authorize_spec(
                    *store,
                    c.sub as int,
                    c_id as int,
                    Action::DownloadSubmissionFile,
                ) {
                    Err(e) => r == Err::<(String, String, String), ApiError>(e),
                    Ok(_) => {
                        let f = store.file_by_id(f_id as int);
                        r matches Ok((name, ctype, path)) && name@ == f.file_name@ && ctype@
                            == f.content_type@ && path@ == f.file_path@
                    },
                }
            },
        },
{
    let claims = match check_auth(secret, token, now) {
        Ok(c) => c,
        Err(e) => {
            return Err(e);
        },
    };
    if store.find_user(claims.sub).is_none() {
        return Err(ApiError::NotFound);
    }
    let fidx = match find_file_in_class(store, f_id, c_id, FileKind::Submission) {
        Some(i) => i,
        None => {
            return Err(ApiError::NotFound);
        },
    };
    if let Err(e) = authorize(store, claims.sub, c_id, Action::DownloadSubmissionFile) {
        return Err(e);
    }
    let f = &store.files[fidx];
    Ok(
        (
            clone_string(&f.file_name),
            clone_string(&f.content_type),
            clone_string(&f.file_path),
        ),
    )
}

/// Serves a material file for download: the file must be a material under
/// the classroom, and any member of the classroom may download it.
pub fn download_material_file(
    store: &Store,
    secret: &Vec<u8>,
    token: Option<&String>,
    now: i64,
    c_id: i32,
    f_id: i32,
) -> (r: Result<(String, String, String), ApiError>)
    requires
        store.wf(),
    ensures
        match check_auth_spec(secret@, opt_token_bytes(token), now) {
            Err(e) => r == Err::<(String, String, String), ApiError>(e),
            Ok(c) => if !store.has_user(c.sub as int) {
                r == Err::<(String, String, String), ApiError>(ApiError::NotFound)
            } else if !file_in_class(*store, f_id as int, c_id as int, FileKind::Material) {
                r == Err::<(String, String, String), ApiError>(ApiError::NotFound)
            } else {
                match authorize_spec(*store, c.sub as int, c_id as int, Action::DownloadMaterial) {
                    Err(e) => r == Err::<(String, String, String), ApiError>(e),
                    Ok(_) => {
                        let f = store.file_by_id(f_id as int);
                        r matches Ok((name, ctype, path)) && name@ == f.file_name@ && ctype@
                            == f.content_type@ && path@ == f.file_path@
                    },
                }
            },
        },
{
    let claims = match check_auth(secret, token, now) {
        Ok(c) => c,
        Err(e) => {
            return Err(e);
        },
    };
    if store.find_user(claims.sub).is_none() {
        return Err(ApiError::NotFound);
    }
    let fidx = match find_file_in_class(store, f_id, c_id, FileKind::Material) {
        Some(i) => i,
        None => {
            return Err(ApiError::NotFound);
        },
    };
    if let Err(e) = authorize(store, claims.sub, c_id, Action::DownloadMaterial) {
        return Err(e);
    }
    let f = &store.files[fidx];
    Ok(
        (
            clone_string(&f.file_name),
            clone_string(&f.content_type),
            clone_string(&f.file_path),
        ),
    )
}

/// Records uploaded files as rows of an assignment, in order, under fresh
/// consecutive ids.
fn record_files(
    store: &mut Store,
    a_id: i32,
    user_id: i32,
    files: &Vec<UploadedFile>,
    kind: FileKind,
)
    requires
        old(store).wf(),
        old(store).has_assignment(a_id as int),
        old(store).has_user(user_id as int),
        old(store).next_file_id + files@.len() <= i32::MAX,
    ensures
        final(store).wf(),
        final(store).files@.len() == old(store).files@.len() + files@.len(),
        forall|k: int|
            0 <= k < old(store).files@.len() ==> final(store).files@[k] == old(store).files@[k],
        forall|k: int|
            0 <= k < files@.len() ==> final(store).files@[old(store).files@.len() + k] == (
            FileRecord {
                id: (old(store).next_file_id + k) as i32,
                assignment_id: a_id,
                user_id,
                file_name: files@[k].file_name,
                file_path: files@[k].file_path,
                content_type: files@[k].content_type,
                kind,
            }),
        final(store).next_file_id == old(store).next_file_id + files@.len(),
        same_users(*old(store), *final(store)),
        same_classrooms(*old(store), *final(store)),
        same_grants(*old(store), *final(store)),
        same_assignments(*old(store), *final(store)),
        same_submissions(*old(store), *final(store)),
{
    let n = files.len();
    let mut k: usize = 0;
    while k < n
        invariant
            k <= n,
            n == files@.len(),
            store.wf(),
            old(store).has_assignment(a_id as int),
            old(store).has_user(user_id as int),
            old(store).next_file_id + n <= i32::MAX,
            store.next_file_id == old(store).next_file_id + k,
            store.files@.len() == old(store).files@.len() + k,
            forall|j: int|
                0 <= j < old(store).files@.len() ==> store.files@[j] == old(store).files@[j],
            forall|j: int|
                0 <= j < k ==> store.files@[old(store).files@.len() + j] == (FileRecord {
                    id: (old(store).next_file_id + j) as i32,
                    assignment_id: a_id,
                    user_id,
                    file_name: files@[j].file_name,
                    file_path: files@[j].file_path,
                    content_type: files@[j].content_type,
                    kind,
                }),
            same_users(*old(store), *store),
            same_classrooms(*old(store), *store),
            same_grants(*old(store), *store),
            same_assignments(*old(store), *store),
            same_submissions(*old(store), *store),
        decreases n - k,
    {
        proof {
            let w = old(store).assignment_idx(a_id as int);
            assert(store.assignments@[w].id == a_id);
            let v = old(store).user_idx(user_id as int);
            assert(store.users@[v].id == user_id);
        }
        let f = &files[k];
        store.insert_file(
            a_id,
            user_id,
            clone_string(&f.file_name),
            clone_string(&f.file_path),
            clone_string(&f.content_type),
            kind,
        );
        k += 1;
    }
}

/// Saves a submission: the already-stored uploads are recorded as
/// submission files of the assignment, then the submission row is created
/// with the current timestamp if the principal had none, or its timestamp
/// is refreshed if one exists; repeated submissions accumulate files and
/// never create a second row. Requires membership of the classroom; a
/// missing assignment or an exhausted id space is an internal failure that
/// changes nothing.
pub fn save_submission_multipart_files(
    store: &mut Store,
    secret: &Vec<u8>,
    token: Option<&String>,
    now: i64,
    c_id: i32,
    a_id: i32,
    files: Vec<UploadedFile>,
) -> (r: Result<String, ApiError>)
    requires
        old(store).wf(),
    ensures
        final(store).wf(),
        r is Err ==> same_store(*old(store), *final(store)),
        match check_auth_spec(secret@, opt_token_bytes(token), now) {
            Err(e) => r == Err::<String, ApiError>(e),
            Ok(c) => match authorize_spec(
                *old(store),
                c.sub as int,
                c_id as int,
                Action::SubmitWork,
            ) {
                Err(e) => r == Err::<String, ApiError>(e),
                Ok(_) => {
                    &&& r matches Err(e) ==> e == ApiError::InternalFailure
                    &&& (old(store).has_assignment(a_id as int) && old(store).next_file_id
                        + files@.len() <= i32::MAX && (old(store).has_submission_for(
                        a_id as int,
                        c.sub as int,
                    ) || old(store).next_submission_id < i32::MAX)) ==> r is Ok
                    &&& r matches Ok(msg) ==> {
                        &&& msg@ == "Submission saved successfully"@
                        &&& final(store).files@.len() == old(store).files@.len() + files@.len()
                        &&& forall|k: int|
                            0 <= k < old(store).files@.len() ==> final(store).files@[k] == old(
                                store,
                            ).files@[k]
                        &&& forall|k: int|
                            0 <= k < files@.len() ==> final(store).files@[old(store).files@.len()
                                + k] == (FileRecord {
                                id: (old(store).next_file_id + k) as i32,
                                assignment_id: a_id,
                                user_id: c.sub,
                                file_name: files@[k].file_name,
                                file_path: files@[k].file_path,
                                content_type: files@[k].content_type,
                                kind: FileKind::Submission,
                            })
                        &&& if old(store).has_submission_for(a_id as int, c.sub as int) {
                            final(store).submissions@ == old(store).submissions@.update(
                                old(store).submission_for_idx(a_id as int, c.sub as int),
                                (Submission {
                                    submitted_at: Some(now),
                                    ..old(store).submissions@[old(store).submission_for_idx(
                                        a_id as int,
                                        c.sub as int,
                                    )]
                                }),
                            ) && final(store).next_submission_id == old(store).next_submission_id
                        } else {
                            final(store).submissions@ == old(store).submissions@.push(
                                (Submission {
                                    id: old(store).next_submission_id,
                                    assignment_id: a_id,
                                    user_id: c.sub,
                                    submitted_at: Some(now),
                                    is_graded: false,
                                    grade: None,
                                    graded_at: None,
                                    graded_by: None,
                                }),
                            ) && final(store).next_submission_id == old(store).next_submission_id
                                + 1
                        }
                        &&& same_users(*old(store), *final(store))
                        &&& same_classrooms(*old(store), *final(store))
                        &&& same_grants(*old(store), *final(store))
                        &&& same_assignments(*old(store), *final(store))
                    }
                },
            },
        },
{
    let claims = match check_auth(secret, token, now) {
        Ok(c) => c,
        Err(e) => {
            return Err(e);
        },
    };
    if let Err(e) = authorize(store, claims.sub, c_id, Action::SubmitWork) {
        return Err(e);
    }
    if store.find_assignment(a_id).is_none() {
        return Err(ApiError::InternalFailure);
    }
    if files.len() > (i32::MAX - store.next_file_id) as usize {
        return Err(ApiError::InternalFailure);
    }
    let prior = store.find_submission_for(a_id, claims.sub);
    if prior.is_none() && store.next_submission_id == i32::MAX {
        return Err(ApiError::InternalFailure);
    }
    record_files(store, a_id, claims.sub, &files, FileKind::Submission);
    match prior {
        Some(sidx) => {
            store.touch_submission(sidx, now);
        },
        None => {
            proof {
                let w = old(store).assignment_idx(a_id as int);
                assert(store.assignments@[w].id == a_id);
                let v = old(store).user_idx(claims.sub as int);
                assert(store.users@[v].id == claims.sub);
            }
            store.insert_submission(a_id, claims.sub, now);
        },
    }
    Ok(String::from_str("Submission saved successfully"))
}

/// Attaches material files to an assignment: only a teacher of the
/// classroom may add materials; the uploads are recorded in order under
/// fresh consecutive ids. A missing assignment or an exhausted id space is
/// an internal failure that changes nothing.
pub fn add_assignment_materials(
    store: &mut Store,
    secret: &Vec<u8>,
    token: Option<&String>,
    now: i64,
    c_id: i32,
    a_id: i32,
    files: Vec<UploadedFile>,
) -> (r: Result<String, ApiError>)
    requires
        old(store).wf(),
    ensures
        final(store).wf(),
        r is Err ==> same_store(*old(store), *final(store)),
        match check_auth_spec(secret@, opt_token_bytes(token), now) {
            Err(e) => r == Err::<String, ApiError>(e),
            Ok(c) => match authorize_spec(
                *old(store),
                c.sub as int,
                c_id as int,
                Action::AddMaterials,
            ) {
                Err(e) => r == Err::<String, ApiError>(e),
                Ok(_) => {
                    &&& r matches Err(e) ==> e == ApiError::InternalFailure
                    &&& (old(store).has_assignment(a_id as int) && old(store).next_file_id
                        + files@.len() <= i32::MAX) ==> r is Ok
                    &&& r matches Ok(msg) ==> {
                        &&& msg@ == "Assignment materials saved successfully"@
                        &&& final(store).files@.len() == old(store).files@.len() + files@.len()
                        &&& forall|k: int|
                            0 <= k < old(store).files@.len() ==> final(store).files@[k] == old(
                                store,
                            ).files@[k]
                        &&& forall|k: int|
                            0 <= k < files@.len() ==> final(store).files@[old(store).files@.len()
                                + k] == (FileRecord {
                                id: (old(store).next_file_id + k) as i32,
                                assignment_id: a_id,
                                user_id: c.sub,
                                file_name: files@[k].file_name,
                                file_path: files@[k].file_path,
                                content_type: files@[k].content_type,
                                kind: FileKind::Material,
                            })
                        &&& same_users(*old(store), *final(store))
                        &&& same_classrooms(*old(store), *final(store))
                        &&& same_grants(*old(store), *final(store))
                        &&& same_assignments(*old(store), *final(store))
                        &&& same_submissions(*old(store), *final(store))
                    }
                },
            },
        },
{
    let claims = match check_auth(secret, token, now) {
        Ok(c) => c,
        Err(e) => {
            return Err(e);
        },
    };
    if let Err(e) = authorize(store, claims.sub, c_id, Action::AddMaterials) {
        return Err(e);
    }
    if store.find_assignment(a_id).is_none() {
        return Err(ApiError::InternalFailure);
    }
    if files.len() > (i32::MAX - store.next_file_id) as usize {
        return Err(ApiError::InternalFailure);
    }
    record_files(store, a_id, claims.sub, &files, FileKind::Material);
    Ok(String::from_str("Assignment materials saved successfully"))
}

/// The grader's display name, when the grader is recorded and still
/// exists.
pub open spec fn grader_name_ok(s: Store, row: Submission, o: Option<String>) -> bool {
    match row.graded_by {
        None => o is None,
        Some(g) => if s.has_user(g as int) {
            o matches Some(n) && n@ == s.user_by_id(g as int).name@
        } else {
            o is None
        },
    }
}

/// Returns one submission as its teacher sees it: the row's fields, the
/// student's and grader's names, the assignment's title and points, and
/// the student's attached submission files. Only a teacher of the
/// classroom may read it.
pub fn get_submission(
    store: &Store,
    secret: &Vec<u8>,
    token: Option<&String>,
    now: i64,
    c_id: i32,
    s_id: i32,
) -> (r: Result<SubmissionResponse, ApiError>)
    requires
        store.wf(),
    ensures
        match check_auth_spec(secret@, opt_token_bytes(token), now) {
            Err(e) => r == Err::<SubmissionResponse, ApiError>(e),
            Ok(c) => match authorize_spec(*store, c.sub as int, c_id as int, Action::ReadSubmission) {
                Err(e) => r == Err::<SubmissionResponse, ApiError>(e),
                Ok(_) => if !submission_in_class(*store, s_id as int, c_id as int) {
                    r == Err::<SubmissionResponse, ApiError>(ApiError::NotFound)
                } else {
                    let row = store.submission_by_id(s_id as int);
                    let a = store.assignment_by_id(row.assignment_id as int);
                    let files = submission_files_of(*store, row.assignment_id as int, row.user_id as int);
                    r matches Ok(resp) && {
                        &&& resp.id == row.id
                        &&& resp.assignment_id == row.assignment_id
                        &&& resp.assignment_title@ == a.title@
                        &&& resp.assignment_points == a.points
                        &&& resp.student_name@ == store.user_by_id(row.user_id as int).name@
                        &&& opt_ts_display_ok(row.submitted_at, resp.submitted_at)
                        &&& resp.is_graded == row.is_graded
                        &&& resp.grade == row.grade
                        &&& opt_ts_display_ok(row.graded_at, resp.graded_at)
                        &&& grader_name_ok(*store, row, resp.grader_name)
                        &&& resp.files@.len() == files.len()
                        &&& forall|k: int|
                            0 <= k < files.len() ==> file_entry_matches(
                                files[k],
                                #[trigger] resp.files@[k],
                            )
                    }
                },
            },
        },
{
    let claims = match check_auth(secret, token, now) {
        Ok(c) => c,
        Err(e) => {
            return Err(e);
        },
    };
    if let Err(e) = authorize(store, claims.sub, c_id, Action::ReadSubmission) {
        return Err(e);
    }
    let sidx = match find_submission_in_class(store, s_id, c_id) {
        Some(i) => i,
        None => {
            return Err(ApiError::NotFound);
        },
    };
    let row_assignment = store.submissions[sidx].assignment_id;
    let row_user = store.submissions[sidx].user_id;
    let aidx = store.find_assignment(row_assignment).unwrap();
    let uidx = store.find_user(row_user).unwrap();
    let grader_name: Option<String> = match store.submissions[sidx].graded_by {
        None => None,
        Some(g) => match store.find_user(g) {
            Some(gi) => Some(clone_string(&store.users[gi].name)),
            None => None,
        },
    };
    let files = crate::classroom::collect_files(
        store,
        row_assignment,
        Some(row_user),
        FileKind::Submission,
    );
    Ok(
        SubmissionResponse {
            id: store.submissions[sidx].id,
            assignment_id: row_assignment,
            assignment_title: clone_string(&store.assignments[aidx].title),
            assignment_points: store.assignments[aidx].points,
            student_name: clone_string(&store.users[uidx].name),
            submitted_at: opt_ts_display(store.submissions[sidx].submitted_at),
            is_graded: store.submissions[sidx].is_graded,
            grade: store.submissions[sidx].grade,
            graded_at: opt_ts_display(store.submissions[sidx].graded_at),
            grader_name,
            files,
        },
    )
}

/// The submission rows of a classroom, in stored order.
pub open spec fn class_submissions(s: Store, c: int) -> Seq<Submission> {
    s.submissions@.filter(
        |row: Submission| s.has_assignment(row.assignment_id as int) && s.assignment_by_id(
            row.assignment_id as int,
        ).classroom_id == c,
    )
}

/// A listing entry matches a stored submission row.
pub open spec fn submission_info_matches(s: Store, row: Submission, e: SubmissionInfo) -> bool {
    &&& e.id == row.id
    &&& e.assignment_id == row.assignment_id
    &&& e.assignment_title@ == s.assignment_by_id(row.assignment_id as int).title@
    &&& e.student_name@ == s.user_by_id(row.user_id as int).name@
    &&& opt_ts_display_ok(row.submitted_at, e.submitted_at)
    &&& e.is_graded == row.is_graded
    &&& e.grade == row.grade
}

/// The listing order: later submissions first, rows without a timestamp
/// first of all.
pub open spec fn key_ge(a: Option<i64>, b: Option<i64>) -> bool {
    match (a, b) {
        (None, _) => true,
        (Some(_), None) => false,
        (Some(x), Some(y)) => x >= y,
    }
}

/// A listing is correct for a classroom: some ordering of exactly the
/// classroom's submission rows whose entries match their rows and whose
/// timestamps descend, absent ones first.
pub open spec fn submission_listing_ok(
    s: Store,
    c: int,
    v: Seq<SubmissionInfo>,
    src: Seq<int>,
) -> bool {
    let rows = class_submissions(s, c);
    {
        &&& src.len() == rows.len()
        &&& v.len() == rows.len()
        &&& forall|k: int| 0 <= k < src.len() ==> 0 <= #[trigger] src[k] < rows.len()
        &&& forall|i: int, j: int|
            #![trigger src[i], src[j]]
            0 <= i < j < src.len() ==> src[i] != src[j]
        &&& forall|k: int|
            0 <= k < v.len() ==> submission_info_matches(s, rows[src[k]], #[trigger] v[k])
        &&& forall|i: int, j: int|
            #![trigger src[i], src[j]]
            0 <= i < j < v.len() ==> key_ge(
                rows[src[i]].submitted_at,
                rows[src[j]].submitted_at,
            )
    }
}

/// A listing is correct when some ordering of the classroom's rows
/// witnesses it.
pub open spec fn listing_correct(s: Store, c: int, v: Seq<SubmissionInfo>) -> bool {
    exists|src: Seq<int>| submission_listing_ok(s, c, v, src)
}

/// Whether `a` sorts at or before `b` in the listing order, matching
/// `key_ge`.
fn key_ge_exec(a: &Option<i64>, b: &Option<i64>) -> (r: bool)
    ensures
        r == key_ge(*a, *b),
{
    match (a, b) {
        (None, _) => true,
        (Some(_), None) => false,
        (Some(x), Some(y)) => *x >= *y,
    }
}

/// The listing order is total and transitive.
proof fn lemma_key_order(a: Option<i64>, b: Option<i64>, c: Option<i64>)
    ensures
        !key_ge(a, b) ==> key_ge(b, a),
        key_ge(a, b) && key_ge(b, c) ==> key_ge(a, c),
{
}

/// Lists every submission of a classroom for its teacher, later
/// submissions first, rows without a timestamp first of all. Only a
/// teacher of the classroom may list them.
pub fn list_submissions(
    store: &Store,
    secret: &Vec<u8>,
    token: Option<&String>,
    now: i64,
    c_id: i32,
) -> (r: Result<Vec<SubmissionInfo>, ApiError>)
    requires
        store.wf(),
    ensures
        match check_auth_spec(secret@, opt_token_bytes(token), now) {
            Err(e) => r == Err::<Vec<SubmissionInfo>, ApiError>(e),
            Ok(c) => match authorize_spec(
                *store,
                c.sub as int,
                c_id as int,
                Action::ListSubmissions,
            ) {
                Err(e) => r == Err::<Vec<SubmissionInfo>, ApiError>(e),
                Ok(_) => r is Ok && listing_correct(*store, c_id as int, (r->Ok_0)@),
            },
        },
{
    let claims = match check_auth(secret, token, now) {
        Ok(c) => c,
        Err(e) => {
            return Err(e);
        },
    };
    if let Err(e) = authorize(store, claims.sub, c_id, Action::ListSubmissions) {
        return Err(e);
    }
    let ghost pred = |row: Submission|
        store.has_assignment(row.assignment_id as int) && store.assignment_by_id(
            row.assignment_id as int,
        ).classroom_id == c_id;
    let ghost rows = class_submissions(*store, c_id as int);

    // first pass: the classroom's rows, in stored order
    let mut base: Vec<SubmissionInfo> = Vec::new();
    let mut basekeys: Vec<Option<i64>> = Vec::new();
    let n = store.submissions.len();
    let mut i: usize = 0;
    proof {
        assert(store.submissions@.subrange(0, 0) =~= Seq::<Submission>::empty());
        assert(store.submissions@.subrange(0, 0).filter(pred) =~= Seq::<Submission>::empty()) by {
            reveal(Seq::filter);
        }
    }
    while i < n
        invariant
            i <= n,
            n == store.submissions@.len(),
            store.wf(),
            pred == (|row: Submission|
                store.has_assignment(row.assignment_id as int) && store.assignment_by_id(
                    row.assignment_id as int,
                ).classroom_id == c_id),
            base@.len() == store.submissions@.subrange(0, i as int).filter(pred).len(),
            basekeys@.len() == base@.len(),
            forall|k: int|
                0 <= k < base@.len() ==> submission_info_matches(
                    *store,
                    store.submissions@.subrange(0, i as int).filter(pred)[k],
                    #[trigger] base@[k],
                ),
            forall|k: int|
                0 <= k < base@.len() ==> #[trigger] basekeys@[k] == store.submissions@.subrange(
                    0,
                    i as int,
                ).filter(pred)[k].submitted_at,
        decreases n - i,
    {
        proof {
            lemma_filter_step(store.submissions@, pred, i as int);
        }
        let row_assignment = store.submissions[i].assignment_id;
        let aidx = store.find_assignment(row_assignment).unwrap();
        if store.assignments[aidx].classroom_id == c_id {
            let uidx = store.find_user(store.submissions[i].user_id).unwrap();
            let entry = SubmissionInfo {
                id: store.submissions[i].id,
                assignment_id: row_assignment,
                assignment_title: clone_string(&store.assignments[aidx].title),
                student_name: clone_string(&store.users[uidx].name),
                submitted_at: opt_ts_display(store.submissions[i].submitted_at),
                is_graded: store.submissions[i].is_graded,
                grade: store.submissions[i].grade,
            };
            base.push(entry);
            basekeys.push(store.submissions[i].submitted_at);
        }
        i += 1;
    }
    proof {
        assert(store.submissions@.subrange(0, n as int) =~= store.submissions@);
    }

    // second pass: order by timestamp, descending, absent first
    let mut out: Vec<SubmissionInfo> = Vec::new();
    let mut keys: Vec<Option<i64>> = Vec::new();
    let ghost mut src: Seq<int> = Seq::empty();
    while base.len() > 0
        invariant
            store.wf(),
            rows == class_submissions(*store, c_id as int),
            basekeys@.len() == base@.len() <= rows.len(),
            forall|k: int|
                0 <= k < base@.len() ==> submission_info_matches(
                    *store,
                    rows[k],
                    #[trigger] base@[k],
                ),
            forall|k: int| 0 <= k < base@.len() ==> #[trigger] basekeys@[k] == rows[k].submitted_at,
            out@.len() == rows.len() - base@.len(),
            keys@.len() == out@.len(),
            src.len() == out@.len(),
            forall|k: int| 0 <= k < src.len() ==> base@.len() <= #[trigger] src[k] < rows.len(),
            forall|i2: int, j2: int|
                #![trigger src[i2], src[j2]]
                0 <= i2 < j2 < src.len() ==> src[i2] != src[j2],
            forall|k: int|
                0 <= k < out@.len() ==> submission_info_matches(
                    *store,
                    rows[src[k]],
                    #[trigger] out@[k],
                ),
            forall|k: int| 0 <= k < keys@.len() ==> #[trigger] keys@[k] == rows[src[k]].submitted_at,
            forall|i2: int, j2: int|
                #![trigger keys@[i2], keys@[j2]]
                0 <= i2 < j2 < keys@.len() ==> key_ge(keys@[i2], keys@[j2]),
        decreases base@.len(),
    {
        let entry = base.pop().unwrap();
        let key = basekeys.pop().unwrap();
        let ghost j = base@.len() as int;
        let m = out.len();
        let mut p: usize = 0;
        while p < m && key_ge_exec(&keys[p], &key)
            invariant
                p <= m,
                m == out@.len(),
                m == keys@.len(),
                forall|q: int| 0 <= q < p ==> key_ge(#[trigger] keys@[q], key),
            decreases m - p,
        {
            p += 1;
        }
        proof {
            if p < m {
                assert(!key_ge(keys@[p as int], key));
                lemma_key_order(keys@[p as int], key, key);
            }
        }
        out.insert(p, entry);
        keys.insert(p, key);
        proof {
            src = src.insert(p as int, j);
            assert forall|i2: int, j2: int|
                #![trigger keys@[i2], keys@[j2]]
                0 <= i2 < j2 < keys@.len() implies key_ge(keys@[i2], keys@[j2]) by {
                let oldk = keys@.remove(p as int);
                if i2 < p && j2 == p {
                } else if i2 == p && j2 > p {
                    if p < m {
                        lemma_key_order(keys@[p as int + 1], key, key);
                        lemma_key_order(key, keys@[p as int], keys@[j2]);
                        if j2 > p + 1 {
                            lemma_key_order(keys@[p as int], keys@[j2], keys@[j2]);
                        }
                    }
                }
            }
        }
    }
    proof {
        assert(base@.len() == 0);
        assert forall|i2: int, j2: int|
            #![trigger src[i2], src[j2]]
            0 <= i2 < j2 < src.len() implies key_ge(
            rows[src[i2]].submitted_at,
            rows[src[j2]].submitted_at,
        ) by {
            assert(keys@[i2] == rows[src[i2]].submitted_at);
            assert(keys@[j2] == rows[src[j2]].submitted_at);
            assert(key_ge(keys@[i2], keys@[j2]));
        }
        assert(submission_listing_ok(*store, c_id as int, out@, src));
        assert(listing_correct(*store, c_id as int, out@));
    }
    Ok(out)
}

/// A fresh storage path for an upload: the uploads directory, a random
/// 36-character component, an underscore, then the original file name.
pub fn new_upload_path(file_name: &String) -> (r: String)
    ensures
        r@.len() == file_name@.len() + 47,
        r@.subrange(0, 10) == "./uploads/"@,
        r@.subrange(47, r@.len() as int) == file_name@,
{
    proof {
        reveal_strlit("./uploads/");
        reveal_strlit("_");
    }
    let code = crate::classroom::new_uuid_string();
    let mut r = String::from_str("./uploads/");
    r.append(code.as_str());
    r.append("_");
    r.append(file_name.as_str());
    proof {
        assert(r@.subrange(0, 10) =~= "./uploads/"@);
        assert(r@.subrange(47, r@.len() as int) =~= file_name@);
    }
    r
}

} // verus!
