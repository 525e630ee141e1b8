use classroom_backend::{
    add_assignment_materials, new_upload_path, ClassroomRole, cancel_grade, cancel_submission, create_assignment, create_class,
    delete_assignment_file, download_material_file, download_submission_file, edit_profile,
    get_assignment, get_class, get_class_role, get_submission, get_user, grade_submission,
    join_class, list_classes, list_submissions, login, profile, register,
    save_submission_multipart_files, ApiError, CreateAssignmentRequest, CreateClassroomRequest,
    EditProfileRequest, GradeSubmissionRequest, JoinClassroomRequest, LoginRequest,
    RegisterRequest, Store, UploadedFile,
};

const NOW: i64 = 1_700_000_000;

fn secret() -> Vec<u8> {
    b"flow-test-secret".to_vec()
}

fn register_req(name: &str, email: &str, password: &str) -> RegisterRequest {
    RegisterRequest {
        name: name.to_string(),
        email: email.to_string(),
        password: password.to_string(),
    }
}

fn upload(name: &str) -> UploadedFile {
    UploadedFile {
        file_name: name.to_string(),
        file_path: format!("./uploads/x_{}", name),
        content_type: "application/pdf".to_string(),
    }
}

/// A store with a teacher (id 1, owner of classroom 1 with assignment 1)
/// and a student (id 2, joined classroom 1), with both tokens.
fn classroom_with_two_users() -> (Store, Vec<u8>, String, String) {
    let s = secret();
    let mut store = Store::new();
    let (t_resp, t_token) = register(&mut store, &s, register_req("Ada", "a@x.com", "pw-a"), NOW)
        .unwrap();
    assert_eq!(t_resp.user_id, 1);
    let (s_resp, s_token) = register(&mut store, &s, register_req("Ben", "b@x.com", "pw-b"), NOW)
        .unwrap();
    assert_eq!(s_resp.user_id, 2);
    create_class(
        &mut store,
        &s,
        Some(&t_token),
        NOW,
        CreateClassroomRequest { title: "Algebra".to_string(), description: "Intro".to_string() },
    )
        .unwrap();
    let overview = get_class(&store, &s, Some(&t_token), NOW, 1).unwrap();
    let code = overview.join_code.clone();
    join_class(
        &mut store,
        &s,
        Some(&s_token),
        NOW,
        JoinClassroomRequest { join_code: code },
    )
        .unwrap();
    create_assignment(
        &mut store,
        &s,
        Some(&t_token),
        NOW,
        1,
        CreateAssignmentRequest {
            title: "Homework 1".to_string(),
            description: "Solve everything".to_string(),
            due_date: Some("2025-06-07T14:30".to_string()),
            points: 100,
        },
    )
        .unwrap();
    (store, s, t_token, s_token)
}

#[test]
fn scenario_register_login_create_join_assign() {
    let s = secret();
    let mut store = Store::new();
    let (resp, _token) = register(&mut store, &s, register_req("Ada", "a@x.com", "pw-a"), NOW)
        .unwrap();
    assert_eq!(resp.user_id, 1);
    assert_eq!(resp.email, "a@x.com");

    let (lresp, teacher_token) = login(
        &store,
        &s,
        LoginRequest { email: "a@x.com".to_string(), password: "pw-a".to_string() },
        NOW + 10,
    )
        .unwrap();
    assert_eq!(lresp.user_id, 1);

    create_class(
        &mut store,
        &s,
        Some(&teacher_token),
        NOW + 20,
        CreateClassroomRequest { title: "Algebra".to_string(), description: "Intro".to_string() },
    )
        .unwrap();
    let overview = get_class(&store, &s, Some(&teacher_token), NOW + 20, 1).unwrap();
    assert_eq!(overview.title, "Algebra");
    assert_eq!(overview.teacher, "Ada");
    assert_eq!(overview.join_code.len(), 36);

    let (_, other_token) = register(&mut store, &s, register_req("Ben", "b@x.com", "pw-b"), NOW)
        .unwrap();
    join_class(
        &mut store,
        &s,
        Some(&other_token),
        NOW + 30,
        JoinClassroomRequest { join_code: overview.join_code.clone() },
    )
        .unwrap();

    // a parsable due date becomes a UTC timestamp
    let created = create_assignment(
        &mut store,
        &s,
        Some(&teacher_token),
        NOW + 40,
        1,
        CreateAssignmentRequest {
            title: "Homework 1".to_string(),
            description: "Solve".to_string(),
            due_date: Some("2025-06-07T14:30".to_string()),
            points: 100,
        },
    )
        .unwrap();
    assert_eq!(created.id, 1);
    assert_eq!(store.assignments[0].due_date, Some(1_749_306_600));

    // an unparsable one is rejected before any row is written
    let bad = create_assignment(
        &mut store,
        &s,
        Some(&teacher_token),
        NOW + 50,
        1,
        CreateAssignmentRequest {
            title: "Homework 2".to_string(),
            description: "Solve".to_string(),
            due_date: Some("June 7th 2025".to_string()),
            points: 50,
        },
    );
    assert_eq!(bad, Err(ApiError::ValidationError));
    assert_eq!(store.assignments.len(), 1);
}

#[test]
fn duplicate_email_conflicts() {
    let s = secret();
    let mut store = Store::new();
    register(&mut store, &s, register_req("Ada", "a@x.com", "pw"), NOW).unwrap();
    let second = register(&mut store, &s, register_req("Eve", "a@x.com", "pw2"), NOW);
    assert_eq!(second.unwrap_err(), ApiError::Conflict);
    assert_eq!(store.users.len(), 1);
}

#[test]
fn login_rejects_bad_credentials() {
    let s = secret();
    let mut store = Store::new();
    register(&mut store, &s, register_req("Ada", "a@x.com", "pw"), NOW).unwrap();
    let wrong_pw = login(
        &store,
        &s,
        LoginRequest { email: "a@x.com".to_string(), password: "nope".to_string() },
        NOW,
    );
    assert_eq!(wrong_pw.unwrap_err(), ApiError::InvalidCredential);
    let unknown = login(
        &store,
        &s,
        LoginRequest { email: "who@x.com".to_string(), password: "pw".to_string() },
        NOW,
    );
    assert_eq!(unknown.unwrap_err(), ApiError::InvalidCredential);
}

#[test]
fn class_role_requires_authentication_and_reports_teacher() {
    let (store, s, t_token, s_token) = classroom_with_two_users();
    // unauthenticated
    let r = get_class_role(&store, &s, None, NOW, 1);
    assert_eq!(r, Err(ApiError::InvalidCredential));
    // teacher
    let tr = get_class_role(&store, &s, Some(&t_token), NOW, 1).unwrap();
    assert!(tr.is_teacher);
    // student
    let sr = get_class_role(&store, &s, Some(&s_token), NOW, 1).unwrap();
    assert!(!sr.is_teacher);
    // expired credential
    let r2 = get_class_role(&store, &s, Some(&t_token), NOW + 700_000, 1);
    assert_eq!(r2, Err(ApiError::InvalidCredential));
}

#[test]
fn joining_twice_conflicts_without_duplicate_grant() {
    let (mut store, s, t_token, s_token) = classroom_with_two_users();
    let code = get_class(&store, &s, Some(&t_token), NOW, 1).unwrap().join_code;
    let grants_before = store.grants.len();
    let again = join_class(
        &mut store,
        &s,
        Some(&s_token),
        NOW + 60,
        JoinClassroomRequest { join_code: code },
    );
    assert_eq!(again.unwrap_err(), ApiError::Conflict);
    assert_eq!(store.grants.len(), grants_before);
}

#[test]
fn join_with_unknown_code_not_found() {
    let (mut store, s, _t, s_token) = classroom_with_two_users();
    let r = join_class(
        &mut store,
        &s,
        Some(&s_token),
        NOW,
        JoinClassroomRequest { join_code: "no-such-code".to_string() },
    );
    assert_eq!(r.unwrap_err(), ApiError::NotFound);
}

#[test]
fn first_submission_creates_one_row_resubmit_updates() {
    let (mut store, s, _t, s_token) = classroom_with_two_users();
    assert_eq!(store.submissions.len(), 0);
    save_submission_multipart_files(
        &mut store,
        &s,
        Some(&s_token),
        NOW + 100,
        1,
        1,
        vec![upload("draft.pdf")],
    )
        .unwrap();
    assert_eq!(store.submissions.len(), 1);
    assert_eq!(store.submissions[0].submitted_at, Some(NOW + 100));
    assert!(!store.submissions[0].is_graded);

    save_submission_multipart_files(
        &mut store,
        &s,
        Some(&s_token),
        NOW + 200,
        1,
        1,
        vec![upload("final.pdf")],
    )
        .unwrap();
    // still one row, refreshed timestamp, files accumulated
    assert_eq!(store.submissions.len(), 1);
    assert_eq!(store.submissions[0].submitted_at, Some(NOW + 200));
    let a = get_assignment(&store, &s, Some(&s_token), NOW + 200, 1, 1).unwrap();
    assert!(a.is_submitted);
    assert_eq!(a.submission_files.len(), 2);
}

#[test]
fn cancelling_submission_removes_row() {
    let (mut store, s, _t, s_token) = classroom_with_two_users();
    save_submission_multipart_files(
        &mut store,
        &s,
        Some(&s_token),
        NOW + 100,
        1,
        1,
        vec![upload("draft.pdf")],
    )
        .unwrap();
    cancel_submission(&mut store, &s, Some(&s_token), NOW + 150, 1, 1).unwrap();
    assert_eq!(store.submissions.len(), 0);
    let a = get_assignment(&store, &s, Some(&s_token), NOW + 150, 1, 1).unwrap();
    assert!(!a.is_submitted);
    // a second cancel finds nothing
    let again = cancel_submission(&mut store, &s, Some(&s_token), NOW + 160, 1, 1);
    assert_eq!(again.unwrap_err(), ApiError::NotFound);
}

#[test]
fn grading_sets_fields_and_cancel_clears_all_and_submitted_at() {
    let (mut store, s, t_token, s_token) = classroom_with_two_users();
    save_submission_multipart_files(
        &mut store,
        &s,
        Some(&s_token),
        NOW + 100,
        1,
        1,
        vec![upload("work.pdf")],
    )
        .unwrap();
    let listed = list_submissions(&store, &s, Some(&t_token), NOW + 110, 1).unwrap();
    assert_eq!(listed.len(), 1);
    let sub_id = listed[0].id;

    grade_submission(
        &mut store,
        &s,
        Some(&t_token),
        NOW + 120,
        1,
        sub_id,
        GradeSubmissionRequest { grade: Some(95) },
    )
        .unwrap();
    let graded = get_submission(&store, &s, Some(&t_token), NOW + 130, 1, sub_id).unwrap();
    assert!(graded.is_graded);
    assert_eq!(graded.grade, Some(95));
    assert!(graded.graded_at.is_some());
    assert_eq!(graded.grader_name, Some("Ada".to_string()));
    assert!(graded.submitted_at.is_some());

    cancel_grade(&mut store, &s, Some(&t_token), NOW + 140, 1, sub_id).unwrap();
    let row = &store.submissions[0];
    assert!(!row.is_graded);
    assert_eq!(row.grade, None);
    assert_eq!(row.graded_at, None);
    assert_eq!(row.graded_by, None);
    // cancelling a grade also clears the submission timestamp
    assert_eq!(row.submitted_at, None);
    let a = get_assignment(&store, &s, Some(&s_token), NOW + 150, 1, 1).unwrap();
    assert!(!a.is_submitted);
}

#[test]
fn grading_with_no_score_is_allowed() {
    let (mut store, s, t_token, s_token) = classroom_with_two_users();
    save_submission_multipart_files(&mut store, &s, Some(&s_token), NOW, 1, 1, vec![]).unwrap();
    let sub_id = store.submissions[0].id;
    grade_submission(
        &mut store,
        &s,
        Some(&t_token),
        NOW + 10,
        1,
        sub_id,
        GradeSubmissionRequest { grade: None },
    )
        .unwrap();
    assert!(store.submissions[0].is_graded);
    assert_eq!(store.submissions[0].grade, None);
    assert!(store.submissions[0].graded_at.is_some());
}

#[test]
fn student_gets_insufficient_role_never_not_found() {
    let (mut store, s, _t, s_token) = classroom_with_two_users();
    save_submission_multipart_files(
        &mut store,
        &s,
        Some(&s_token),
        NOW,
        1,
        1,
        vec![upload("work.pdf")],
    )
        .unwrap();
    let sub_id = store.submissions[0].id;
    let file_id = store.files[0].id;

    let g = grade_submission(
        &mut store,
        &s,
        Some(&s_token),
        NOW,
        1,
        sub_id,
        GradeSubmissionRequest { grade: Some(1) },
    );
    assert_eq!(g.unwrap_err(), ApiError::InsufficientRole);
    let c = cancel_grade(&mut store, &s, Some(&s_token), NOW, 1, sub_id);
    assert_eq!(c.unwrap_err(), ApiError::InsufficientRole);
    let l = list_submissions(&store, &s, Some(&s_token), NOW, 1);
    assert_eq!(l.unwrap_err(), ApiError::InsufficientRole);
    let d = download_submission_file(&store, &s, Some(&s_token), NOW, 1, file_id);
    assert_eq!(d.unwrap_err(), ApiError::InsufficientRole);
}

#[test]
fn outsider_is_not_member() {
    let (mut store, s, _t, _s) = classroom_with_two_users();
    let (_, outsider) = register(&mut store, &s, register_req("Eve", "e@x.com", "pw-e"), NOW)
        .unwrap();
    let a = get_assignment(&store, &s, Some(&outsider), NOW, 1, 1);
    assert_eq!(a.unwrap_err(), ApiError::NotMember);
    let r = get_class_role(&store, &s, Some(&outsider), NOW, 1);
    assert_eq!(r.unwrap_err(), ApiError::NotMember);
    let c = cancel_submission(&mut store, &s, Some(&outsider), NOW, 1, 1);
    assert_eq!(c.unwrap_err(), ApiError::NotMember);
}

#[test]
fn materials_are_teacher_only_and_member_downloadable() {
    let (mut store, s, t_token, s_token) = classroom_with_two_users();
    let denied = add_assignment_materials(
        &mut store,
        &s,
        Some(&s_token),
        NOW,
        1,
        1,
        vec![upload("notes.pdf")],
    );
    assert_eq!(denied.unwrap_err(), ApiError::InsufficientRole);

    add_assignment_materials(
        &mut store,
        &s,
        Some(&t_token),
        NOW,
        1,
        1,
        vec![upload("notes.pdf")],
    )
        .unwrap();
    let a = get_assignment(&store, &s, Some(&s_token), NOW, 1, 1).unwrap();
    assert_eq!(a.materials.len(), 1);
    assert_eq!(a.materials[0].file_name, "notes.pdf");
    let file_id = a.materials[0].id;

    let (name, ctype, path) = download_material_file(&store, &s, Some(&s_token), NOW, 1, file_id)
        .unwrap();
    assert_eq!(name, "notes.pdf");
    assert_eq!(ctype, "application/pdf");
    assert_eq!(path, "./uploads/x_notes.pdf");

    // a submission file is not served as a material
    let miss = download_material_file(&store, &s, Some(&s_token), NOW, 1, 999);
    assert_eq!(miss.unwrap_err(), ApiError::NotFound);
}

#[test]
fn teacher_downloads_submission_file() {
    let (mut store, s, t_token, s_token) = classroom_with_two_users();
    save_submission_multipart_files(
        &mut store,
        &s,
        Some(&s_token),
        NOW,
        1,
        1,
        vec![upload("essay.pdf")],
    )
        .unwrap();
    let file_id = store.files[0].id;
    let (name, _ctype, _path) = download_submission_file(
        &store,
        &s,
        Some(&t_token),
        NOW,
        1,
        file_id,
    )
        .unwrap();
    assert_eq!(name, "essay.pdf");
}

#[test]
fn deleting_a_file_removes_its_row_and_returns_its_path() {
    let (mut store, s, t_token, _s) = classroom_with_two_users();
    add_assignment_materials(
        &mut store,
        &s,
        Some(&t_token),
        NOW,
        1,
        1,
        vec![upload("old.pdf")],
    )
        .unwrap();
    let file_id = store.files[0].id;
    let path = delete_assignment_file(&mut store, &s, Some(&t_token), NOW, 1, 1, file_id)
        .unwrap();
    assert_eq!(path, "./uploads/x_old.pdf");
    assert_eq!(store.files.len(), 0);
    let again = delete_assignment_file(&mut store, &s, Some(&t_token), NOW, 1, 1, file_id);
    assert_eq!(again.unwrap_err(), ApiError::NotFound);
}

#[test]
fn profile_read_and_edit() {
    let (mut store, s, t_token, _s) = classroom_with_two_users();
    get_user(&store, &s, Some(&t_token), NOW).unwrap();
    let p = profile(&store, &s, Some(&t_token), NOW).unwrap();
    assert_eq!(p.name, "Ada");
    assert_eq!(p.email, "a@x.com");
    let edited = edit_profile(
        &mut store,
        &s,
        Some(&t_token),
        NOW,
        EditProfileRequest { name: "Ada L.".to_string(), avatar_url: "ignored".to_string() },
    )
        .unwrap();
    assert_eq!(edited.name, "Ada L.");
    let p2 = profile(&store, &s, Some(&t_token), NOW).unwrap();
    assert_eq!(p2.name, "Ada L.");
    assert_eq!(p2.email, "a@x.com");
}

#[test]
fn class_lists_for_student_and_teacher() {
    let (store, s, t_token, s_token) = classroom_with_two_users();
    // the assignment of the fixture is due 2025-06-07, after NOW
    let student_view = list_classes(&store, &s, Some(&s_token), NOW).unwrap();
    assert_eq!(student_view.enrolled_classes.len(), 1);
    assert_eq!(student_view.enrolled_classes[0].title, "Algebra");
    assert_eq!(student_view.enrolled_classes[0].teacher, "Ada");
    assert_eq!(
        student_view.enrolled_classes[0].upcoming_assignment,
        Some("Homework 1".to_string()),
    );
    assert_eq!(student_view.teaching_classes.len(), 0);

    let teacher_view = list_classes(&store, &s, Some(&t_token), NOW).unwrap();
    assert_eq!(teacher_view.enrolled_classes.len(), 0);
    assert_eq!(teacher_view.teaching_classes.len(), 1);
    assert_eq!(teacher_view.teaching_classes[0].title, "Algebra");

    // once the due date has passed, the student sees no upcoming assignment
    let later = 1_749_306_601;
    let late_token = login(
        &store,
        &s,
        LoginRequest { email: "b@x.com".to_string(), password: "pw-b".to_string() },
        later,
    )
        .unwrap()
        .1;
    let aged = list_classes(&store, &s, Some(&late_token), later).unwrap();
    assert_eq!(aged.enrolled_classes[0].upcoming_assignment, None);
}

#[test]
fn submissions_list_newest_first() {
    let (mut store, s, t_token, s_token) = classroom_with_two_users();
    let (_, third_token) = register(&mut store, &s, register_req("Cy", "c@x.com", "pw-c"), NOW)
        .unwrap();
    let code = get_class(&store, &s, Some(&t_token), NOW, 1).unwrap().join_code;
    join_class(
        &mut store,
        &s,
        Some(&third_token),
        NOW,
        JoinClassroomRequest { join_code: code },
    )
        .unwrap();
    save_submission_multipart_files(&mut store, &s, Some(&s_token), NOW + 100, 1, 1, vec![])
        .unwrap();
    save_submission_multipart_files(&mut store, &s, Some(&third_token), NOW + 200, 1, 1, vec![])
        .unwrap();
    let listed = list_submissions(&store, &s, Some(&t_token), NOW + 300, 1).unwrap();
    assert_eq!(listed.len(), 2);
    assert_eq!(listed[0].student_name, "Cy");
    assert_eq!(listed[1].student_name, "Ben");
    assert_eq!(listed[0].assignment_title, "Homework 1");
    assert!(!listed[0].is_graded);
    assert_eq!(listed[1].submitted_at, Some("2023-11-14 22:15:00 UTC".to_string()));
}

#[test]
fn assignment_view_shows_due_date_and_grade() {
    let (mut store, s, t_token, s_token) = classroom_with_two_users();
    let a = get_assignment(&store, &s, Some(&s_token), NOW, 1, 1).unwrap();
    assert_eq!(a.due_date, "2025-06-07 14:30:00 UTC");
    assert_eq!(a.points, 100);
    assert_eq!(a.class_title, "Algebra");
    assert!(!a.is_submitted);
    assert_eq!(a.grade, None);

    save_submission_multipart_files(&mut store, &s, Some(&s_token), NOW, 1, 1, vec![]).unwrap();
    let sub_id = store.submissions[0].id;
    grade_submission(
        &mut store,
        &s,
        Some(&t_token),
        NOW,
        1,
        sub_id,
        GradeSubmissionRequest { grade: Some(88) },
    )
        .unwrap();
    let a2 = get_assignment(&store, &s, Some(&s_token), NOW, 1, 1).unwrap();
    assert!(a2.is_submitted);
    assert_eq!(a2.grade, Some(88));
}

#[test]
fn submission_lookup_is_scoped_to_classroom() {
    let (mut store, s, t_token, s_token) = classroom_with_two_users();
    save_submission_multipart_files(&mut store, &s, Some(&s_token), NOW, 1, 1, vec![]).unwrap();
    let sub_id = store.submissions[0].id;
    // a second classroom owned by the same teacher
    create_class(
        &mut store,
        &s,
        Some(&t_token),
        NOW,
        CreateClassroomRequest { title: "Geometry".to_string(), description: "".to_string() },
    )
        .unwrap();
    let wrong_class = get_submission(&store, &s, Some(&t_token), NOW, 2, sub_id);
    assert_eq!(wrong_class.unwrap_err(), ApiError::NotFound);
    let missing = grade_submission(
        &mut store,
        &s,
        Some(&t_token),
        NOW,
        1,
        999,
        GradeSubmissionRequest { grade: Some(1) },
    );
    assert_eq!(missing.unwrap_err(), ApiError::NotFound);
}

#[test]
fn role_names_read_back() {
    assert_eq!(ClassroomRole::from("teacher".to_string()), ClassroomRole::Teacher);
    assert_eq!(ClassroomRole::from("student".to_string()), ClassroomRole::Student);
    assert_eq!(ClassroomRole::from("creator".to_string()), ClassroomRole::Creator);
    assert_eq!(ClassroomRole::Teacher.name(), "teacher");
}

#[test]
fn upload_paths_carry_directory_and_name() {
    let p = new_upload_path(&"essay.pdf".to_string());
    assert_eq!(p.len(), "essay.pdf".len() + 47);
    assert!(p.starts_with("./uploads/"));
    assert!(p.ends_with("_essay.pdf"));
    // the random component keeps two uploads of the same name apart
    let q = new_upload_path(&"essay.pdf".to_string());
    assert_ne!(p, q);
}
