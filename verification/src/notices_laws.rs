//! What holds of every notice: what it says, where it is shown, and in which order.

use vstd::prelude::*;

use crate::i18n::I18n;
use crate::i18n::Localize;
use crate::notices::all_values;
use crate::notices::before;
use crate::notices::concerns;
use crate::notices::draft_problem;
use crate::notices::drafted;
use crate::notices::edited;
use crate::notices::error_text;
use crate::notices::id_index;
use crate::notices::last_value;
use crate::notices::lemma_apps_are_ordered_and_distinct;
use crate::notices::new_notice;
use crate::notices::newest;
use crate::notices::put_notice;
use crate::notices::shown;
use crate::notices::state_named;
use crate::notices::tidy_draft;
use crate::notices::visible;
use crate::notices::without_id;
use crate::notices::DraftView;
use crate::notices::ID_BYTES;
use crate::notices::MAX_BODY_CHARS;
use crate::notices::MAX_TITLE_CHARS;
use crate::notices::Notice;
use crate::notices::NoticeDraft;
use crate::notices::NoticeError;
use crate::notices::NoticeState;
use crate::notices::NoticeView;
use crate::notices::RESOLVED_VISIBLE_SECS;
use crate::text::decimal;
use crate::text::nonblank;
use crate::text::trim;
use crate::text::views;

verus! {

/// A form names the four states, each by its own name, and nothing else.
pub proof fn lemma_states_have_names(raw: Seq<char>)
    ensures
        state_named(raw) == Some(NoticeState::Investigating) <==> raw == "investigating"@,
        state_named(raw) == Some(NoticeState::Identified) <==> raw == "identified"@,
        state_named(raw) == Some(NoticeState::Monitoring) <==> raw == "monitoring"@,
        state_named(raw) == Some(NoticeState::Resolved) <==> raw == "resolved"@,
{
    reveal_strlit("investigating");
    reveal_strlit("identified");
    reveal_strlit("monitoring");
    reveal_strlit("resolved");
    assert("investigating"@.len() == 13);
    assert("identified"@[0] == 'i');
    assert("monitoring"@[0] == 'm');
    assert("resolved"@[0] == 'r');
}

/// A notice concerns the apps that it names, or all of them where it names none.
pub proof fn lemma_whom_a_notice_concerns(notice: NoticeView, slug: Seq<char>)
    ensures
        concerns(notice, slug) <==> notice.apps.len() == 0 || exists|i: int|
            0 <= i < notice.apps.len() && #[trigger] notice.apps[i] == slug,
{
}

/// A text comes before another exactly where it is a shorter beginning of it, or has the smaller
/// character where the two first differ.
pub proof fn lemma_texts_are_ordered_by_their_characters(a: Seq<char>, b: Seq<char>)
    ensures
        before(a, b) <==> exists|k: int| #[trigger] parts_at(a, b, k),
    decreases a.len(),
{
    if b.len() > 0 && a.len() > 0 && a[0] == b[0] {
        let x = a.skip(1);
        let y = b.skip(1);
        lemma_texts_are_ordered_by_their_characters(x, y);
        if before(a, b) {
            let k = choose|k: int| #[trigger] parts_at(x, y, k);
            assert forall|j: int| 0 <= j < k + 1 implies #[trigger] a[j] == b[j] by {
                if j > 0 {
                    assert(x[j - 1] == a[j]);
                    assert(y[j - 1] == b[j]);
                }
            }
            assert(parts_at(a, b, k + 1));
        }
        if exists|k: int| #[trigger] parts_at(a, b, k) {
            let k = choose|k: int| #[trigger] parts_at(a, b, k);
            assert(k > 0);
            assert forall|j: int| 0 <= j < k - 1 implies #[trigger] x[j] == y[j] by {
                assert(a[j + 1] == b[j + 1]);
            }
            assert(parts_at(x, y, k - 1));
        }
    } else if b.len() > 0 {
        if before(a, b) {
            assert(parts_at(a, b, 0));
        }
        if exists|k: int| #[trigger] parts_at(a, b, k) {
            let k = choose|k: int| #[trigger] parts_at(a, b, k);
            if k > 0 {
                assert(a[0] == b[0]);
            }
        }
    }
}

/// Whether two texts are alike up to `k`, and the first ends there or goes on with the smaller
/// character.
pub open spec fn parts_at(a: Seq<char>, b: Seq<char>, k: int) -> bool {
    &&& 0 <= k <= a.len()
    &&& k < b.len()
    &&& forall|j: int| 0 <= j < k ==> #[trigger] a[j] == b[j]
    &&& k == a.len() || a[k] < b[k]
}

/// A draft needs a title, of at most 120 characters, and has room for a text of 2000.
pub proof fn lemma_what_drafts_have_to_be(draft: DraftView)
    ensures
        draft_problem(draft) is None <==> 1 <= trim(draft.title).len() <= 120 && trim(
            draft.body,
        ).len() <= 2000,
        draft_problem(draft) == Some(NoticeError::EmptyTitle) <==> trim(draft.title).len() == 0,
        draft_problem(draft) == Some(NoticeError::TooLong) <==> trim(draft.title).len() > 120 || (
        trim(draft.title).len() > 0 && trim(draft.body).len() > 2000),
{
}

/// What is kept of a draft: its texts trimmed, its state, and the apps that aren't blank.
pub proof fn lemma_what_is_kept_of_a_draft(draft: DraftView)
    ensures
        tidy_draft(draft).title == trim(draft.title),
        tidy_draft(draft).body == trim(draft.body),
        tidy_draft(draft).state == draft.state,
        forall|x: Seq<char>| #[trigger]
            tidy_draft(draft).apps.contains(x) <==> nonblank(draft.apps).contains(x),
        tidy_draft(draft).apps.no_duplicates(),
{
    lemma_apps_are_ordered_and_distinct(nonblank(draft.apps));
    let apps = tidy_draft(draft).apps;
    assert forall|i: int, j: int| 0 <= i < apps.len() && 0 <= j < apps.len() && i != j implies apps[i]
        != apps[j] by {
        if i < j {
            lemma_never_before_itself(apps[i]);
            assert(before(apps[i], apps[j]));
        } else {
            lemma_never_before_itself(apps[j]);
            assert(before(apps[j], apps[i]));
        }
    }
}

proof fn lemma_never_before_itself(a: Seq<char>)
    ensures
        !before(a, a),
    decreases a.len(),
{
    if a.len() > 0 {
        lemma_never_before_itself(a.skip(1));
    }
}

/// A field that is sent more than once has its last value.
pub proof fn lemma_last_values_count(pairs: Seq<(Seq<char>, Seq<char>)>, key: Seq<char>)
    ensures
        match last_value(pairs, key) {
            Some(value) => exists|i: int|
                0 <= i < pairs.len() && (#[trigger] pairs[i]) == (key, value) && forall|j: int|
                    i < j < pairs.len() ==> (#[trigger] pairs[j]).0 != key,
            None => forall|j: int| 0 <= j < pairs.len() ==> (#[trigger] pairs[j]).0 != key,
        },
    decreases pairs.len(),
{
    if pairs.len() > 0 {
        let front = pairs.drop_last();
        let n = front.len() as int;
        if pairs.last().0 == key {
            assert(pairs[n] == (key, pairs.last().1));
        } else {
            lemma_last_values_count(front, key);
            if last_value(front, key) is Some {
                let value = last_value(front, key)->0;
                let i = choose|i: int|
                    0 <= i < front.len() && (#[trigger] front[i]) == (key, value) && forall|j: int|
                        i < j < front.len() ==> (#[trigger] front[j]).0 != key;
                assert(pairs[i] == (key, value));
                assert forall|j: int| i < j < pairs.len() implies (#[trigger] pairs[j]).0 != key by {
                    if j < n {
                        assert(front[j] == pairs[j]);
                    }
                }
            } else {
                assert forall|j: int| 0 <= j < pairs.len() implies (#[trigger] pairs[j]).0 != key by {
                    if j < n {
                        assert(front[j] == pairs[j]);
                    }
                }
            }
        }
    }
}

/// Of a field that may be sent more than once, all values are taken, in their order.
pub proof fn lemma_all_values_are_taken(pairs: Seq<(Seq<char>, Seq<char>)>, key: Seq<char>)
    ensures
        all_values(pairs, key) == pairs.filter(
            |p: (Seq<char>, Seq<char>)| p.0 == key,
        ).map_values(|p: (Seq<char>, Seq<char>)| p.1),
    decreases pairs.len(),
{
    reveal(Seq::filter);
    if pairs.len() > 0 {
        lemma_all_values_are_taken(pairs.drop_last(), key);
    }
    assert(all_values(pairs, key) =~= pairs.filter(
        |p: (Seq<char>, Seq<char>)| p.0 == key,
    ).map_values(|p: (Seq<char>, Seq<char>)| p.1));
}

/// A form makes a draft exactly where it has a title and names a state; the draft has what the
/// form's fields say.
pub proof fn lemma_forms_make_drafts(pairs: Seq<(Seq<char>, Seq<char>)>)
    ensures
        drafted(pairs) is Some <==> last_value(pairs, "title"@) is Some && last_value(
            pairs,
            "state"@,
        ) is Some && state_named(last_value(pairs, "state"@)->0) is Some,
        drafted(pairs) is Some ==> {
            let draft = drafted(pairs)->0;
            &&& Some(draft.title) == last_value(pairs, "title"@)
            &&& Some(draft.state) == state_named(last_value(pairs, "state"@)->0)
            &&& last_value(pairs, "body"@) is Some ==> Some(draft.body) == last_value(
                pairs,
                "body"@,
            )
            &&& last_value(pairs, "body"@) is None ==> draft.body.len() == 0
            &&& draft.apps == all_values(pairs, "apps"@)
        },
{
}

/// A page shows a notice that concerns its app while it is open, and for a week (604,800 seconds)
/// after it was resolved.
pub proof fn lemma_when_notices_are_visible(notice: NoticeView, slug: Seq<char>, now: u64)
    ensures
        visible(notice, slug, now) <==> (notice.apps.len() == 0 || notice.apps.contains(slug)) && (
        notice.resolved_at is None || now < notice.resolved_at->0 + 604_800),
{
}

/// The notices of a page are the visible ones, in their order, the resolved ones apart.
pub proof fn lemma_pages_split_the_visible_notices(
    notices: Seq<NoticeView>,
    slug: Seq<char>,
    now: u64,
)
    ensures
        shown(notices, slug, now, false) == notices.filter(
            |n: NoticeView|
                n.state != NoticeState::Resolved && (n.apps.len() == 0 || n.apps.contains(slug))
                    && (n.resolved_at is None || now < n.resolved_at->0 + 604_800),
        ),
        shown(notices, slug, now, true) == notices.filter(
            |n: NoticeView|
                n.state == NoticeState::Resolved && (n.apps.len() == 0 || n.apps.contains(slug))
                    && (n.resolved_at is None || now < n.resolved_at->0 + 604_800),
        ),
    decreases notices.len(),
{
    reveal(Seq::filter);
    if notices.len() > 0 {
        lemma_pages_split_the_visible_notices(notices.drop_last(), slug, now);
    }
}

/// A list has all notices, the newest first; of those of one second, the one that stood first in
/// the store stays first: `at` tells where each stood.
pub proof fn lemma_lists_are_newest_first(notices: Seq<NoticeView>) -> (at: Seq<int>)
    ensures
        newest(notices).len() == notices.len(),
        newest(notices).to_multiset() == notices.to_multiset(),
        at.len() == notices.len(),
        forall|k: int|
            0 <= k < at.len() ==> 0 <= #[trigger] at[k] < notices.len() && newest(notices)[k]
                == notices[at[k]],
        forall|k: int, l: int|
            0 <= k < l < at.len() ==> {
                ||| notices[#[trigger] at[k]].created_at > notices[#[trigger] at[l]].created_at
                ||| notices[at[k]].created_at == notices[at[l]].created_at && at[k] < at[l]
            },
    decreases notices.len(),
{
    broadcast use vstd::seq_lib::group_to_multiset_ensures;

    if notices.len() == 0 {
        assert(newest(notices) =~= notices);
        Seq::empty()
    } else {
        let front = notices.drop_last();
        let n = front.len() as int;
        let before = lemma_lists_are_newest_first(front);
        let at = lemma_put(notices, newest(front), before, n);
        assert(notices =~= front.push(notices.last()));
        assert(notices[n] == notices.last());
        at
    }
}

proof fn lemma_put(
    notices: Seq<NoticeView>,
    listed: Seq<NoticeView>,
    before: Seq<int>,
    n: int,
) -> (at: Seq<int>)
    requires
        0 <= n < notices.len(),
        before.len() == listed.len(),
        forall|k: int|
            0 <= k < before.len() ==> 0 <= #[trigger] before[k] < n && listed[k]
                == notices[before[k]],
        forall|k: int, l: int|
            0 <= k < l < before.len() ==> {
                ||| notices[#[trigger] before[k]].created_at > notices[#[trigger] before[l]].created_at
                ||| notices[before[k]].created_at == notices[before[l]].created_at && before[k]
                    < before[l]
            },
    ensures
        put_notice(listed, notices[n]).len() == listed.len() + 1,
        put_notice(listed, notices[n]).to_multiset() == listed.push(notices[n]).to_multiset(),
        at.len() == listed.len() + 1,
        forall|k: int|
            0 <= k < at.len() ==> 0 <= #[trigger] at[k] <= n && put_notice(listed, notices[n])[k]
                == notices[at[k]] && (at[k] == n || before.contains(at[k])),
        forall|k: int, l: int|
            0 <= k < l < at.len() ==> {
                ||| notices[#[trigger] at[k]].created_at > notices[#[trigger] at[l]].created_at
                ||| notices[at[k]].created_at == notices[at[l]].created_at && at[k] < at[l]
            },
    decreases listed.len(),
{
    broadcast use vstd::seq_lib::group_to_multiset_ensures;

    let notice = notices[n];
    if listed.len() == 0 || listed.last().created_at >= notice.created_at {
        let at = before.push(n);
        assert forall|k: int| 0 <= k < at.len() implies 0 <= #[trigger] at[k] <= n && put_notice(
            listed,
            notice,
        )[k] == notices[at[k]] && (at[k] == n || before.contains(at[k])) by {
            if k < before.len() {
                assert(before[k] == at[k]);
            }
        }
        assert forall|k: int, l: int| 0 <= k < l < at.len() implies {
            ||| notices[#[trigger] at[k]].created_at > notices[#[trigger] at[l]].created_at
            ||| notices[at[k]].created_at == notices[at[l]].created_at && at[k] < at[l]
        } by {
            assert(before[k] == at[k]);
            if l < before.len() {
                assert(before[l] == at[l]);
            } else {
                let last = before.len() - 1;
                assert(notices[before[last]] == listed.last());
                if k < last {
                    assert(notices[before[k]].created_at >= notices[before[last]].created_at);
                }
            }
        }
        at
    } else {
        let rest = before.drop_last();
        let inner = lemma_put(notices, listed.drop_last(), rest, n);
        let at = inner.push(before.last());
        let put = put_notice(listed.drop_last(), notice);
        let m = before.len() - 1;
        assert(listed[m] == listed.last());
        assert(notices[before[m]] == listed[m]);
        assert forall|k: int| 0 <= k < at.len() implies 0 <= #[trigger] at[k] <= n && put_notice(
            listed,
            notice,
        )[k] == notices[at[k]] && (at[k] == n || before.contains(at[k])) by {
            if k < inner.len() {
                assert(inner[k] == at[k]);
                if at[k] != n {
                    let i = choose|i: int| 0 <= i < rest.len() && rest[i] == inner[k];
                    assert(before[i] == at[k]);
                }
            } else {
                assert(before[m] == at[k]);
            }
        }
        assert forall|k: int, l: int| 0 <= k < l < at.len() implies {
            ||| notices[#[trigger] at[k]].created_at > notices[#[trigger] at[l]].created_at
            ||| notices[at[k]].created_at == notices[at[l]].created_at && at[k] < at[l]
        } by {
            assert(inner[k] == at[k]);
            if l < inner.len() {
                assert(inner[l] == at[l]);
            } else if at[k] != n {
                let i = choose|i: int| 0 <= i < rest.len() && rest[i] == inner[k];
                assert(before[i] == at[k]);
                assert(before[m] == at[l]);
            }
        }
        assert(put_notice(listed, notice) =~= put.push(listed.last()));
        let shorter = listed.drop_last();
        assert(put.push(listed.last()).to_multiset() =~= put.to_multiset().insert(listed.last()));
        assert(listed =~= shorter.push(listed.last()));
        assert(listed.to_multiset() =~= shorter.to_multiset().insert(listed.last()));
        assert(shorter.push(notice).to_multiset() =~= shorter.to_multiset().insert(notice));
        assert(listed.push(notice).to_multiset() =~= listed.to_multiset().insert(notice));
        assert(put_notice(listed, notice).to_multiset() =~= listed.push(notice).to_multiset());
        at
    }
}

/// A notice says what its draft says, dated now; an edit changes what it says and keeps when it
/// was published.
pub proof fn lemma_notices_say_what_was_drafted(
    notice: NoticeView,
    id: Seq<char>,
    draft: DraftView,
    now: u64,
)
    ensures
        ({
            let made = new_notice(id, draft, now);
            let kept = edited(notice, draft, now);
            &&& made.id == id && kept.id == notice.id
            &&& made.title == draft.title && kept.title == draft.title
            &&& made.body == draft.body && kept.body == draft.body
            &&& made.state == draft.state && kept.state == draft.state
            &&& made.apps == draft.apps && kept.apps == draft.apps
            &&& made.created_at == now && kept.created_at == notice.created_at
            &&& made.updated_at == now && kept.updated_at == now
            &&& draft.state == NoticeState::Resolved ==> made.resolved_at == Some(now)
            &&& draft.state == NoticeState::Resolved && notice.resolved_at is Some
                ==> kept.resolved_at == notice.resolved_at
            &&& draft.state == NoticeState::Resolved && notice.resolved_at is None
                ==> kept.resolved_at == Some(now)
            &&& draft.state != NoticeState::Resolved ==> made.resolved_at is None
                && kept.resolved_at is None
        }),
{
}

/// An ID stands for the first notice that has it.
pub proof fn lemma_ids_name_the_first(notices: Seq<NoticeView>, id: Seq<char>)
    ensures
        match id_index(notices, id) {
            Some(i) => 0 <= i < notices.len() && notices[i].id == id && forall|j: int|
                0 <= j < i ==> (#[trigger] notices[j]).id != id,
            None => forall|j: int| 0 <= j < notices.len() ==> (#[trigger] notices[j]).id != id,
        },
    decreases notices.len(),
{
    if notices.len() > 0 && notices[0].id != id {
        let rest = notices.skip(1);
        lemma_ids_name_the_first(rest, id);
        let n: int = match id_index(notices, id) {
            Some(i) => i,
            None => notices.len() as int,
        };
        assert forall|j: int| 0 <= j < n implies (#[trigger] notices[j]).id != id by {
            if j > 0 {
                assert(rest[j - 1] == notices[j]);
            }
        }
        if id_index(notices, id) is Some {
            assert(rest[n - 1] == notices[n]);
        }
    }
}

/// Removing an ID leaves the other notices, in their order.
pub proof fn lemma_other_notices_stay(notices: Seq<NoticeView>, id: Seq<char>)
    ensures
        without_id(notices, id) == notices.filter(|n: NoticeView| n.id != id),
    decreases notices.len(),
{
    reveal(Seq::filter);
    if notices.len() > 0 {
        lemma_other_notices_stay(notices.drop_last(), id);
    }
}

/// The limits of a notice, and the length of its ID.
pub proof fn lemma_notice_limits()
    ensures
        MAX_TITLE_CHARS == 120,
        MAX_BODY_CHARS == 2000,
        RESOLVED_VISIBLE_SECS == 7 * 24 * 3600,
        ID_BYTES == 8,
{
}

/// What a notice is, is what its fields say; so is what a draft is.
pub proof fn lemma_notices_are_what_their_fields_say(notice: Notice, draft: NoticeDraft)
    ensures
        notice@.id == notice.id@,
        notice@.title == notice.title@,
        notice@.body == notice.body@,
        notice@.state == notice.state,
        notice@.created_at == notice.created_at,
        notice@.updated_at == notice.updated_at,
        notice@.resolved_at == notice.resolved_at,
        notice@.apps == views(notice.apps@),
        draft@.title == draft.title@,
        draft@.body == draft.body@,
        draft@.state == draft.state,
        draft@.apps == views(draft.apps@),
{
}

/// What an admin reads of an error: what is wrong, with the limits where one was passed.
pub proof fn lemma_notice_errors_say_what_is_wrong(i18n: I18n, e: NoticeError)
    ensures
        e is EmptyTitle ==> e.localized(&i18n) == i18n.template("notices.err_title"@),
        e is TooLong ==> e.localized(&i18n) == i18n.message(
            "notices.err_long"@,
            seq![("title"@, decimal(120)), ("body"@, decimal(2000))],
        ),
        e matches NoticeError::NotFound(id) ==> e.localized(&i18n) == i18n.message(
            "err.internal"@,
            seq![("error"@, "notice '"@ + id@ + "' not found"@)],
        ),
        e matches NoticeError::Id(error) ==> e.localized(&i18n) == i18n.message(
            "err.internal"@,
            seq![("error"@, "could not generate an ID: "@ + error@)],
        ),
        e is EmptyTitle ==> error_text(e) == "the title can't be empty"@,
        e is TooLong ==> error_text(e) == "the title or text is too long"@,
{
}

} // verus!
