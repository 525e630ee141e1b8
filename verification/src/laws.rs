use vstd::prelude::*;

use crate::models::{ClassroomRole, Submission, UserClassroomRole};
use crate::store::{same_classrooms, Store};

verus! {

/// Joining a classroom twice by the same principal conflicts the second
/// time: after the state change a successful join makes (its contract
/// appends exactly the new student grant), the pair holds a grant on the
/// classroom behind the join code, which is the very condition under which
/// the join endpoint's contract forces `Conflict` and an unchanged store.
pub proof fn lemma_join_twice_conflict(pre: Store, post: Store, u: i32, code: Seq<char>, now: i64)
    requires
        pre.wf(),
        post.wf(),
        pre.has_classroom_code(code),
        same_classrooms(pre, post),
        post.grants@ == pre.grants@.push(
            (UserClassroomRole {
                user_id: u,
                classroom_id: pre.classrooms@[pre.classroom_code_idx(code)].id,
                role: ClassroomRole::Student,
                joined_at: now,
            }),
        ),
    ensures
        post.has_classroom_code(code),
        post.has_grant(
            u as int,
            post.classrooms@[post.classroom_code_idx(code)].id as int,
        ),
{
    let k = pre.classroom_code_idx(code);
    assert(pre.classrooms@[k].join_code@ == code);
    assert(post.classrooms@[k].join_code@ == code);
    assert(post.has_classroom_code(code));
    let k2 = post.classroom_code_idx(code);
    assert(post.classrooms@[k2].join_code@ == code);
    assert(k2 == k);
    let last = post.grants@.len() - 1;
    assert(post.grants@[last].user_id == u);
    assert(post.grants@[last].classroom_id == post.classrooms@[k].id);
}

/// A first submission creates exactly one row for the pair, stamped as
/// submitted now and ungraded: after the state change a successful first
/// submission makes, the pair has a row with the submitted timestamp and
/// no grade, and any two rows of the store still differ in their pair, so
/// no duplicate can exist.
pub proof fn lemma_submit_creates_single_row(pre: Store, post: Store, a: i32, u: i32, now: i64)
    requires
        pre.wf(),
        post.wf(),
        !pre.has_submission_for(a as int, u as int),
        post.submissions@ == pre.submissions@.push(
            (Submission {
                id: pre.next_submission_id,
                assignment_id: a,
                user_id: u,
                submitted_at: Some(now),
                is_graded: false,
                grade: None,
                graded_at: None,
                graded_by: None,
            }),
        ),
    ensures
        post.has_submission_for(a as int, u as int),
        post.submission_for(a as int, u as int).submitted_at == Some(now),
        post.submission_for(a as int, u as int).is_graded == false,
        post.submissions@.len() == pre.submissions@.len() + 1,
        forall|i: int|
            0 <= i < post.submissions@.len() && (#[trigger] post.submissions@[i]).assignment_id
                == a && post.submissions@[i].user_id == u ==> i == post.submission_for_idx(
                a as int,
                u as int,
            ),
{
    let last = post.submissions@.len() - 1;
    assert(post.submissions@[last].assignment_id == a && post.submissions@[last].user_id == u);
    assert(post.has_submission_for(a as int, u as int));
    let w = post.submission_for_idx(a as int, u as int);
    assert(post.submissions@[w].assignment_id == a && post.submissions@[w].user_id == u);
    assert forall|i: int|
        0 <= i < post.submissions@.len() && (#[trigger] post.submissions@[i]).assignment_id == a
            && post.submissions@[i].user_id == u implies i == w by {
        if i < last {
            assert(pre.submissions@[i].assignment_id == a && pre.submissions@[i].user_id == u);
            assert(pre.has_submission_for(a as int, u as int));
        }
    }
    assert(w == last);
}

/// A resubmission only refreshes the timestamp: after the state change a
/// successful resubmission makes, the pair's unique row carries the new
/// timestamp and the table has the same number of rows as before.
pub proof fn lemma_resubmit_updates_row(pre: Store, post: Store, a: i32, u: i32, now: i64)
    requires
        pre.wf(),
        post.wf(),
        pre.has_submission_for(a as int, u as int),
        post.submissions@ == pre.submissions@.update(
            pre.submission_for_idx(a as int, u as int),
            (Submission {
                submitted_at: Some(now),
                ..pre.submissions@[pre.submission_for_idx(a as int, u as int)]
            }),
        ),
    ensures
        post.submissions@.len() == pre.submissions@.len(),
        post.has_submission_for(a as int, u as int),
        post.submission_for(a as int, u as int).submitted_at == Some(now),
        post.submission_for(a as int, u as int).is_graded == pre.submission_for(
            a as int,
            u as int,
        ).is_graded,
{
    let w = pre.submission_for_idx(a as int, u as int);
    assert(pre.submissions@[w].assignment_id == a && pre.submissions@[w].user_id == u);
    assert(post.submissions@[w].assignment_id == a && post.submissions@[w].user_id == u);
    assert(post.has_submission_for(a as int, u as int));
    let w2 = post.submission_for_idx(a as int, u as int);
    assert(post.submissions@[w2].assignment_id == a && post.submissions@[w2].user_id == u);
    if w2 != w {
        assert(pre.submissions@[w2].assignment_id == a && pre.submissions@[w2].user_id == u);
    }
}

/// Cancelling a submission removes the pair's row outright, so a
/// subsequent status read finds no submission: after the state change a
/// successful cancellation makes, no row for the pair remains.
pub proof fn lemma_cancel_removes_row(pre: Store, post: Store, a: i32, u: i32)
    requires
        pre.wf(),
        post.wf(),
        pre.has_submission_for(a as int, u as int),
        post.submissions@ == pre.submissions@.remove(
            pre.submission_for_idx(a as int, u as int),
        ),
    ensures
        post.submissions@.len() == pre.submissions@.len() - 1,
        !post.has_submission_for(a as int, u as int),
{
    let w = pre.submission_for_idx(a as int, u as int);
    assert(pre.submissions@[w].assignment_id == a && pre.submissions@[w].user_id == u);
    assert forall|i: int|
        0 <= i < post.submissions@.len() implies !((#[trigger] post.submissions@[i]).assignment_id
        == a && post.submissions@[i].user_id == u) by {
        let i0: int = if i < w {
            i
        } else {
            i + 1
        };
        assert(post.submissions@[i] == pre.submissions@[i0]);
        if pre.submissions@[i0].assignment_id == a && pre.submissions@[i0].user_id == u {
            assert(pre.submissions@[w].assignment_id == a);
        }
    }
}

/// Grading then cancelling the grade: grading sets the graded flag, a
/// grading timestamp and a grader while leaving the submission timestamp
/// alone; cancelling that grade resets all four grading fields and also
/// clears the submission timestamp, collapsing the record to "no
/// submission" rather than back to "submitted".
pub proof fn lemma_grade_then_cancel(
    pre: Store,
    mid: Store,
    post: Store,
    s_id: i32,
    grade: Option<i32>,
    grader: i32,
    now: i64,
)
    requires
        pre.wf(),
        mid.wf(),
        post.wf(),
        pre.has_submission(s_id as int),
        mid.submissions@ == pre.submissions@.update(
            pre.submission_idx(s_id as int),
            (Submission {
                is_graded: true,
                grade,
                graded_at: Some(now),
                graded_by: Some(grader),
                ..pre.submissions@[pre.submission_idx(s_id as int)]
            }),
        ),
        post.submissions@ == mid.submissions@.update(
            mid.submission_idx(s_id as int),
            (Submission {
                is_graded: false,
                grade: None,
                graded_at: None,
                graded_by: None,
                submitted_at: None,
                ..mid.submissions@[mid.submission_idx(s_id as int)]
            }),
        ),
    ensures
        mid.has_submission(s_id as int),
        mid.submission_by_id(s_id as int).is_graded,
        mid.submission_by_id(s_id as int).graded_at == Some(now),
        mid.submission_by_id(s_id as int).graded_by == Some(grader),
        mid.submission_by_id(s_id as int).submitted_at == pre.submission_by_id(
            s_id as int,
        ).submitted_at,
        post.has_submission(s_id as int),
        !post.submission_by_id(s_id as int).is_graded,
        post.submission_by_id(s_id as int).grade is None,
        post.submission_by_id(s_id as int).graded_at is None,
        post.submission_by_id(s_id as int).graded_by is None,
        post.submission_by_id(s_id as int).submitted_at is None,
{
    let w = pre.submission_idx(s_id as int);
    assert(pre.submissions@[w].id == s_id);
    assert(mid.submissions@[w].id == s_id);
    assert(mid.has_submission(s_id as int));
    let w2 = mid.submission_idx(s_id as int);
    assert(mid.submissions@[w2].id == s_id);
    if w2 != w {
        assert(pre.submissions@[w2].id == s_id);
    }
    assert(w2 == w);
    assert(post.submissions@[w].id == s_id);
    assert(post.has_submission(s_id as int));
    let w3 = post.submission_idx(s_id as int);
    assert(post.submissions@[w3].id == s_id);
    if w3 != w {
        assert(mid.submissions@[w3].id == s_id);
    }
    assert(w3 == w);
}

} // verus!
