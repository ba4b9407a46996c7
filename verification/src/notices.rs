//! Incident notices for the apps' public status pages: what admins tell visitors about an
//! outage ("investigating", "identified"...), next to the automatic traffic lights. Each
//! notice names the apps it affects; none named = every app.

use vstd::prelude::*;

use crate::i18n::entry_views;
use crate::i18n::I18n;
use crate::i18n::Localize;
use crate::text::char_count;
use crate::text::copied;
use crate::text::decimal;
use crate::text::decimal_text;
use crate::text::is_listed;
use crate::text::lemma_listed_contains;
use crate::text::lemma_views_push;
use crate::text::nonblank;
use crate::text::nonblank_entries;
use crate::text::same;
use crate::text::trim;
use crate::text::trimmed;
use crate::text::views;
use crate::token::is_hex;
use crate::token::random_hex;
use crate::uptime::history::ago;

verus! {

/// Longest title accepted from the form.
pub const MAX_TITLE_CHARS: usize = 120;

/// Longest body accepted from the form.
pub const MAX_BODY_CHARS: usize = 2000;

/// How long a resolved notice stays on a status page under "past incidents".
pub const RESOLVED_VISIBLE_SECS: u64 = 604_800;

/// Random bytes of a notice's ID.
pub const ID_BYTES: usize = 8;

/// Every way an operation on notices can fail.
#[derive(Debug, PartialEq, Eq)]
pub enum NoticeError {
    EmptyTitle,
    TooLong,
    NotFound(String),
    /// No ID could be generated.
    Id(String),
}

/// What an error says.
pub open spec fn error_text(error: NoticeError) -> Seq<char> {
    match error {
        NoticeError::EmptyTitle => "the title can't be empty"@,
        NoticeError::TooLong => "the title or text is too long"@,
        NoticeError::NotFound(id) => "notice '"@ + id@ + "' not found"@,
        NoticeError::Id(error) => "could not generate an ID: "@ + error@,
    }
}

impl NoticeError {
    /// What the error says, for logs and internal errors.
    pub fn message(&self) -> (r: String)
        ensures
            r@ == error_text(*self),
    {
        match self {
            NoticeError::EmptyTitle => "the title can't be empty".to_owned(),
            NoticeError::TooLong => "the title or text is too long".to_owned(),
            NoticeError::NotFound(id) => {
                let mut text = "notice '".to_owned();
                text.append(id.as_str());
                text.append("' not found");
                text
            },
            NoticeError::Id(error) => {
                let mut text = "could not generate an ID: ".to_owned();
                text.append(error.as_str());
                text
            },
        }
    }
}

impl Localize for NoticeError {
    open spec fn localized(&self, i18n: &I18n) -> Seq<char> {
        match self {
            NoticeError::EmptyTitle => i18n.template("notices.err_title"@),
            NoticeError::TooLong => i18n.message(
                "notices.err_long"@,
                seq![
                    ("title"@, decimal(MAX_TITLE_CHARS as nat)),
                    ("body"@, decimal(MAX_BODY_CHARS as nat)),
                ],
            ),
            _ => i18n.message("err.internal"@, seq![("error"@, error_text(*self))]),
        }
    }

    fn localize(&self, i18n: &I18n) -> (r: String) {
        match self {
            NoticeError::EmptyTitle => i18n.line("notices.err_title"),
            NoticeError::TooLong => {
                let title = decimal_text(MAX_TITLE_CHARS as u64);
                let body = decimal_text(MAX_BODY_CHARS as u64);
                i18n.line2("notices.err_long", ("title", title.as_str()), ("body", body.as_str()))
            },
            _ => {
                let text = self.message();
                i18n.line1("err.internal", "error", text.as_str())
            },
        }
    }
}

/// Where an incident stands, in the usual status-page vocabulary.
#[derive(Debug, Clone, Copy, PartialEq, Eq, Structural)]
pub enum NoticeState {
    Investigating,
    Identified,
    Monitoring,
    Resolved,
}

/// The state that a form names.
pub open spec fn state_named(raw: Seq<char>) -> Option<NoticeState> {
    if raw == "investigating"@ {
        Some(NoticeState::Investigating)
    } else if raw == "identified"@ {
        Some(NoticeState::Identified)
    } else if raw == "monitoring"@ {
        Some(NoticeState::Monitoring)
    } else if raw == "resolved"@ {
        Some(NoticeState::Resolved)
    } else {
        None
    }
}

impl NoticeState {
    /// The state that a form names, in lower case.
    pub fn parse(raw: &str) -> (r: Option<NoticeState>)
        ensures
            r == state_named(raw@),
    {
        if same(raw, "investigating") {
            Some(NoticeState::Investigating)
        } else if same(raw, "identified") {
            Some(NoticeState::Identified)
        } else if same(raw, "monitoring") {
            Some(NoticeState::Monitoring)
        } else if same(raw, "resolved") {
            Some(NoticeState::Resolved)
        } else {
            None
        }
    }
}

#[derive(Debug)]
pub struct Notice {
    pub id: String,
    pub title: String,
    pub body: String,
    pub state: NoticeState,
    pub created_at: u64,
    pub updated_at: u64,
    /// Set when the state first becomes `Resolved`; cleared if it's reopened.
    pub resolved_at: Option<u64>,
    /// Slugs of the affected apps; empty = all of them.
    pub apps: Vec<String>,
}

/// What a notice says.
#[verifier::ext_equal]
pub struct NoticeView {
    pub id: Seq<char>,
    pub title: Seq<char>,
    pub body: Seq<char>,
    pub state: NoticeState,
    pub created_at: u64,
    pub updated_at: u64,
    pub resolved_at: Option<u64>,
    pub apps: Seq<Seq<char>>,
}

impl View for Notice {
    type V = NoticeView;

    open spec fn view(&self) -> NoticeView {
        NoticeView {
            id: self.id@,
            title: self.title@,
            body: self.body@,
            state: self.state,
            created_at: self.created_at,
            updated_at: self.updated_at,
            resolved_at: self.resolved_at,
            apps: views(self.apps@),
        }
    }
}

impl Clone for Notice {
    fn clone(&self) -> (r: Self)
        ensures
            r@ == self@,
    {
        Notice {
            id: self.id.clone(),
            title: self.title.clone(),
            body: self.body.clone(),
            state: self.state,
            created_at: self.created_at,
            updated_at: self.updated_at,
            resolved_at: self.resolved_at,
            apps: copied(&self.apps),
        }
    }
}

/// Whether a notice concerns an app: one that names no app concerns all of them.
pub open spec fn concerns(notice: NoticeView, slug: Seq<char>) -> bool {
    notice.apps.len() == 0 || notice.apps.contains(slug)
}

impl Notice {
    #[must_use]
    pub fn affects(&self, slug: &str) -> (r: bool)
        ensures
            r == concerns(self@, slug@),
    {
        proof {
            lemma_listed_contains(self.apps@, slug@);
        }
        self.apps.len() == 0 || is_listed(&self.apps, slug)
    }
}

/// What the admin form submits.
#[derive(Debug)]
pub struct NoticeDraft {
    pub title: String,
    pub body: String,
    pub state: NoticeState,
    pub apps: Vec<String>,
}

/// What a draft says.
#[verifier::ext_equal]
pub struct DraftView {
    pub title: Seq<char>,
    pub body: Seq<char>,
    pub state: NoticeState,
    pub apps: Seq<Seq<char>>,
}

impl View for NoticeDraft {
    type V = DraftView;

    open spec fn view(&self) -> DraftView {
        DraftView {
            title: self.title@,
            body: self.body@,
            state: self.state,
            apps: views(self.apps@),
        }
    }
}

// ---------------------------------------------------------------------------------------
// Names in order
// ---------------------------------------------------------------------------------------

/// Whether a text comes before another: by its characters, a prefix first.
pub open spec fn before(a: Seq<char>, b: Seq<char>) -> bool
    decreases a.len(),
{
    if b.len() == 0 {
        false
    } else if a.len() == 0 {
        true
    } else if a[0] != b[0] {
        a[0] < b[0]
    } else {
        before(a.skip(1), b.skip(1))
    }
}

/// A name put among others that are in order, each once.
pub open spec fn put_name(names: Seq<Seq<char>>, name: Seq<char>) -> Seq<Seq<char>>
    decreases names.len(),
{
    if names.len() == 0 || before(names.last(), name) {
        names.push(name)
    } else if names.last() == name {
        names
    } else {
        put_name(names.drop_last(), name).push(names.last())
    }
}

/// Names in order, each once.
pub open spec fn in_order(names: Seq<Seq<char>>) -> Seq<Seq<char>>
    decreases names.len(),
{
    if names.len() == 0 {
        Seq::empty()
    } else {
        put_name(in_order(names.drop_last()), names.last())
    }
}

fn comes_before(a: &str, b: &str) -> (r: bool)
    ensures
        r == before(a@, b@),
{
    let x = crate::text::chars_of(a);
    let y = crate::text::chars_of(b);
    let mut i: usize = 0;
    proof {
        assert(x@.skip(0) =~= x@);
        assert(y@.skip(0) =~= y@);
    }
    while i < x.len() && i < y.len() && x[i] == y[i]
        invariant
            i <= x@.len(),
            i <= y@.len(),
            before(x@.skip(i as int), y@.skip(i as int)) == before(x@, y@),
        decreases x@.len() - i,
    {
        proof {
            assert(x@.skip(i as int).skip(1) =~= x@.skip(i as int + 1));
            assert(y@.skip(i as int).skip(1) =~= y@.skip(i as int + 1));
        }
        i += 1;
    }
    if i >= y.len() {
        false
    } else if i >= x.len() {
        true
    } else {
        x[i] < y[i]
    }
}

fn put_in_order(names: &mut Vec<String>, name: String)
    ensures
        views(final(names)@) == put_name(views(old(names)@), name@),
{
    let ghost all = views(names@);
    let ghost start = names@;
    let mut i: usize = names.len();
    proof {
        assert(all.take(all.len() as int) =~= all);
        assert(put_name(all, name@) + all.skip(i as int) =~= put_name(all, name@));
    }
    while i > 0 && !comes_before(names[i - 1].as_str(), name.as_str())
        invariant
            i <= names@.len(),
            names@ == start,
            all == views(start),
            put_name(all.take(i as int), name@) + all.skip(i as int) == put_name(all, name@),
        decreases i,
    {
        proof {
            let head = all.take(i as int);
            assert(head.last() == names@[i as int - 1]@);
            assert(head.drop_last() =~= all.take(i as int - 1));
        }
        if same(names[i - 1].as_str(), name.as_str()) {
            proof {
                assert(all.take(i as int) + all.skip(i as int) =~= all);
            }
            return ;
        }
        proof {
            let shorter = put_name(all.take(i as int - 1), name@);
            assert(shorter.push(all[i as int - 1]) + all.skip(i as int) =~= shorter + all.skip(
                i as int - 1,
            ));
        }
        i -= 1;
    }
    proof {
        let head = all.take(i as int);
        if i > 0 {
            assert(head.last() == names@[i as int - 1]@);
        }
        assert(put_name(head, name@) == head.push(name@));
        assert(views(names@.insert(i as int, name)) =~= head.push(name@) + all.skip(i as int));
    }
    names.insert(i, name);
}

fn ordered(names: Vec<String>) -> (r: Vec<String>)
    ensures
        views(r@) == in_order(views(names@)),
{
    let ghost all = views(names@);
    let mut out: Vec<String> = Vec::new();
    let mut i: usize = 0;
    proof {
        assert(all.take(0) =~= Seq::<Seq<char>>::empty());
        assert(views(out@) =~= in_order(all.take(0)));
    }
    while i < names.len()
        invariant
            i <= names@.len(),
            all == views(names@),
            views(out@) == in_order(all.take(i as int)),
        decreases names@.len() - i,
    {
        proof {
            assert(all.take(i as int + 1).drop_last() =~= all.take(i as int));
            assert(all.take(i as int + 1).last() == names@[i as int]@);
        }
        put_in_order(&mut out, names[i].clone());
        i += 1;
    }
    proof {
        assert(all.take(all.len() as int) =~= all);
    }
    out
}

// ---------------------------------------------------------------------------------------
// Drafts
// ---------------------------------------------------------------------------------------

/// What is wrong with a draft, if anything.
pub open spec fn draft_problem(draft: DraftView) -> Option<NoticeError> {
    if trim(draft.title).len() == 0 {
        Some(NoticeError::EmptyTitle)
    } else if trim(draft.title).len() > MAX_TITLE_CHARS || trim(draft.body).len()
        > MAX_BODY_CHARS {
        Some(NoticeError::TooLong)
    } else {
        None
    }
}

/// A draft as it is kept: trimmed, and its apps in order, each once.
pub open spec fn tidy_draft(draft: DraftView) -> DraftView {
    DraftView {
        title: trim(draft.title),
        body: trim(draft.body),
        state: draft.state,
        apps: in_order(nonblank(draft.apps)),
    }
}

impl NoticeDraft {
    /// Trims the texts and orders the apps; says what is wrong with what is left.
    pub fn validated(self) -> (r: Result<Self, NoticeError>)
        ensures
            match draft_problem(self@) {
                Some(problem) => r == Err::<NoticeDraft, NoticeError>(problem),
                None => r is Ok && r->Ok_0@ == tidy_draft(self@),
            },
    {
        let title = trimmed(self.title.as_str());
        let body = trimmed(self.body.as_str());
        if title.as_str().is_empty() {
            return Err(NoticeError::EmptyTitle);
        }
        if char_count(title.as_str()) > MAX_TITLE_CHARS || char_count(body.as_str())
            > MAX_BODY_CHARS {
            return Err(NoticeError::TooLong);
        }
        let apps = ordered(nonblank_entries(&self.apps));
        Ok(NoticeDraft { title, body, state: self.state, apps })
    }
}

/// The pairs of a urlencoded form, in their order, each text decoded.
pub uninterp spec fn form_pairs(body: Seq<u8>) -> Seq<(Seq<char>, Seq<char>)>;

/// Calls `url::form_urlencoded::parse`: named, with nothing said of how the bytes are split
/// and decoded.
#[verifier::external_body]
fn parse_form(body: &[u8]) -> (r: Vec<(String, String)>)
    ensures
        entry_views(r@) == form_pairs(body@),
{
    url::form_urlencoded::parse(body).into_owned().collect()
}

/// The last value of a form's field.
pub open spec fn last_value(pairs: Seq<(Seq<char>, Seq<char>)>, key: Seq<char>) -> Option<Seq<char>>
    decreases pairs.len(),
{
    if pairs.len() == 0 {
        None
    } else if pairs.last().0 == key {
        Some(pairs.last().1)
    } else {
        last_value(pairs.drop_last(), key)
    }
}

/// Every value of a form's field.
pub open spec fn all_values(pairs: Seq<(Seq<char>, Seq<char>)>, key: Seq<char>) -> Seq<Seq<char>>
    decreases pairs.len(),
{
    if pairs.len() == 0 {
        Seq::empty()
    } else {
        let before = all_values(pairs.drop_last(), key);
        if pairs.last().0 == key {
            before.push(pairs.last().1)
        } else {
            before
        }
    }
}

/// The draft that a form's pairs make; `None` without a title or a known state.
pub open spec fn drafted(pairs: Seq<(Seq<char>, Seq<char>)>) -> Option<DraftView> {
    match (last_value(pairs, "title"@), last_value(pairs, "state"@)) {
        (Some(title), Some(raw)) => match state_named(raw) {
            Some(state) => Some(
                DraftView {
                    title,
                    body: match last_value(pairs, "body"@) {
                        Some(body) => body,
                        None => Seq::empty(),
                    },
                    state,
                    apps: all_values(pairs, "apps"@),
                },
            ),
            None => None,
        },
        _ => None,
    }
}

proof fn lemma_fields_differ()
    ensures
        "title"@ != "body"@,
        "title"@ != "state"@,
        "title"@ != "apps"@,
        "body"@ != "state"@,
        "body"@ != "apps"@,
        "state"@ != "apps"@,
{
    reveal_strlit("title");
    reveal_strlit("body");
    reveal_strlit("state");
    reveal_strlit("apps");
    assert("title"@[0] == 't');
    assert("state"@[0] == 's');
    assert("body"@[0] == 'b');
    assert("apps"@[0] == 'a');
}

/// The draft that a form's pairs make. Each affected app comes as a pair of its own.
pub fn draft_of(pairs: &Vec<(String, String)>) -> (r: Option<NoticeDraft>)
    ensures
        match drafted(entry_views(pairs@)) {
            Some(draft) => r is Some && r->0@ == draft,
            None => r is None,
        },
{
    let ghost all = entry_views(pairs@);
    let mut title: Option<String> = None;
    let mut body = String::new();
    let mut state: Option<NoticeState> = None;
    let mut apps: Vec<String> = Vec::new();
    let mut i: usize = 0;
    proof {
        lemma_fields_differ();
        assert(all.take(0) =~= Seq::<(Seq<char>, Seq<char>)>::empty());
        assert(views(apps@) =~= Seq::<Seq<char>>::empty());
        reveal_strlit("");
        assert(body@ =~= Seq::<char>::empty());
    }
    while i < pairs.len()
        invariant
            i <= pairs@.len(),
            all == entry_views(pairs@),
            "title"@ != "body"@,
            "title"@ != "state"@,
            "title"@ != "apps"@,
            "body"@ != "state"@,
            "body"@ != "apps"@,
            "state"@ != "apps"@,
            crate::weburl::opt_view(title) == last_value(all.take(i as int), "title"@),
            body@ == match last_value(all.take(i as int), "body"@) {
                Some(text) => text,
                None => Seq::empty(),
            },
            state == match last_value(all.take(i as int), "state"@) {
                Some(raw) => state_named(raw),
                None => None,
            },
            views(apps@) == all_values(all.take(i as int), "apps"@),
        decreases pairs@.len() - i,
    {
        proof {
            assert(all.take(i as int + 1).drop_last() =~= all.take(i as int));
            assert(all.take(i as int + 1).last() == all[i as int]);
            assert(all[i as int] == (pairs@[i as int].0@, pairs@[i as int].1@));
        }
        let key = pairs[i].0.as_str();
        let value = pairs[i].1.as_str();
        if same(key, "title") {
            title = Some(value.to_owned());
        } else if same(key, "body") {
            body = value.to_owned();
        } else if same(key, "state") {
            state = NoticeState::parse(value);
        } else if same(key, "apps") {
            let slug = value.to_owned();
            proof {
                lemma_views_push(apps@, slug);
            }
            apps.push(slug);
        }
        i += 1;
    }
    proof {
        assert(all.take(all.len() as int) =~= all);
    }
    match (title, state) {
        (Some(title), Some(state)) => Some(NoticeDraft { title, body, state, apps }),
        _ => None,
    }
}

/// Parses the notice form.
pub fn draft_from(body: &[u8]) -> (r: Option<NoticeDraft>)
    ensures
        match drafted(form_pairs(body@)) {
            Some(draft) => r is Some && r->0@ == draft,
            None => r is None,
        },
{
    let pairs = parse_form(body);
    draft_of(&pairs)
}

// ---------------------------------------------------------------------------------------
// The store
// ---------------------------------------------------------------------------------------

/// The notices an app's status page shows: open ones, and those resolved recently.
#[derive(Debug)]
pub struct PublicNotices {
    pub open: Vec<Notice>,
    pub recent: Vec<Notice>,
}

impl Default for PublicNotices {
    fn default() -> (r: Self)
        ensures
            r.open@.len() == 0,
            r.recent@.len() == 0,
    {
        PublicNotices { open: Vec::new(), recent: Vec::new() }
    }
}

pub open spec fn notice_views(v: Seq<Notice>) -> Seq<NoticeView> {
    v.map_values(|n: Notice| n@)
}

/// A notice put among newer and older ones, behind those of the same second.
pub open spec fn put_notice(notices: Seq<NoticeView>, notice: NoticeView) -> Seq<NoticeView>
    decreases notices.len(),
{
    if notices.len() == 0 || notices.last().created_at >= notice.created_at {
        notices.push(notice)
    } else {
        put_notice(notices.drop_last(), notice).push(notices.last())
    }
}

/// Notices newest first; those of the same second keep their order.
pub open spec fn newest(notices: Seq<NoticeView>) -> Seq<NoticeView>
    decreases notices.len(),
{
    if notices.len() == 0 {
        Seq::empty()
    } else {
        put_notice(newest(notices.drop_last()), notices.last())
    }
}

/// Whether an app's status page shows a notice: a resolved one for a week.
pub open spec fn visible(notice: NoticeView, slug: Seq<char>, now: u64) -> bool {
    concerns(notice, slug) && match notice.resolved_at {
        None => true,
        Some(at) => ago(now, at) < RESOLVED_VISIBLE_SECS,
    }
}

/// The visible notices that are resolved, or those that are not.
pub open spec fn shown(
    notices: Seq<NoticeView>,
    slug: Seq<char>,
    now: u64,
    resolved: bool,
) -> Seq<NoticeView>
    decreases notices.len(),
{
    if notices.len() == 0 {
        Seq::empty()
    } else {
        let before = shown(notices.drop_last(), slug, now, resolved);
        let notice = notices.last();
        if visible(notice, slug, now) && (notice.state == NoticeState::Resolved) == resolved {
            before.push(notice)
        } else {
            before
        }
    }
}

/// A new notice.
pub open spec fn new_notice(id: Seq<char>, draft: DraftView, now: u64) -> NoticeView {
    NoticeView {
        id,
        title: draft.title,
        body: draft.body,
        state: draft.state,
        created_at: now,
        updated_at: now,
        resolved_at: if draft.state == NoticeState::Resolved {
            Some(now)
        } else {
            None
        },
        apps: draft.apps,
    }
}

/// A notice after an edit: it keeps when it was resolved, unless it is reopened.
pub open spec fn edited(notice: NoticeView, draft: DraftView, now: u64) -> NoticeView {
    NoticeView {
        id: notice.id,
        title: draft.title,
        body: draft.body,
        state: draft.state,
        created_at: notice.created_at,
        updated_at: now,
        resolved_at: if draft.state == NoticeState::Resolved {
            match notice.resolved_at {
                Some(at) => Some(at),
                None => Some(now),
            }
        } else {
            None
        },
        apps: draft.apps,
    }
}

/// The index of the first notice with an ID.
pub open spec fn id_index(notices: Seq<NoticeView>, id: Seq<char>) -> Option<int>
    decreases notices.len(),
{
    if notices.len() == 0 {
        None
    } else if notices[0].id == id {
        Some(0)
    } else {
        match id_index(notices.skip(1), id) {
            Some(i) => Some(i + 1),
            None => None,
        }
    }
}

/// The notices without those of an ID.
pub open spec fn without_id(notices: Seq<NoticeView>, id: Seq<char>) -> Seq<NoticeView>
    decreases notices.len(),
{
    if notices.len() == 0 {
        Seq::empty()
    } else {
        let before = without_id(notices.drop_last(), id);
        if notices.last().id == id {
            before
        } else {
            before.push(notices.last())
        }
    }
}

proof fn lemma_notice_views_push(v: Seq<Notice>, notice: Notice)
    ensures
        notice_views(v.push(notice)) == notice_views(v).push(notice@),
{
    assert(notice_views(v.push(notice)) =~= notice_views(v).push(notice@));
}

proof fn lemma_id_index(notices: Seq<NoticeView>, id: Seq<char>, i: int)
    requires
        0 <= i < notices.len(),
        notices[i].id == id,
        forall|j: int| 0 <= j < i ==> (#[trigger] notices[j]).id != id,
    ensures
        id_index(notices, id) == Some(i),
    decreases i,
{
    if i > 0 {
        assert(notices[0].id != id);
        assert forall|j: int| 0 <= j < i - 1 implies (#[trigger] notices.skip(1)[j]).id != id by {
            assert(notices.skip(1)[j] == notices[j + 1]);
        }
        lemma_id_index(notices.skip(1), id, i - 1);
    }
}

proof fn lemma_no_id(notices: Seq<NoticeView>, id: Seq<char>)
    requires
        forall|j: int| 0 <= j < notices.len() ==> (#[trigger] notices[j]).id != id,
    ensures
        id_index(notices, id) is None,
        without_id(notices, id) == notices,
    decreases notices.len(),
{
    if notices.len() > 0 {
        assert(notices[0].id != id);
        assert forall|j: int| 0 <= j < notices.skip(1).len() implies (
        #[trigger] notices.skip(1)[j]).id != id by {
            assert(notices.skip(1)[j] == notices[j + 1]);
        }
        lemma_no_id_first(notices.skip(1), id);
        assert forall|j: int| 0 <= j < notices.drop_last().len() implies (
        #[trigger] notices.drop_last()[j]).id != id by {
            assert(notices.drop_last()[j] == notices[j]);
        }
        lemma_no_id(notices.drop_last(), id);
        assert(notices[notices.len() - 1].id != id);
        assert(notices.drop_last().push(notices.last()) =~= notices);
    } else {
        assert(notices =~= Seq::<NoticeView>::empty());
    }
}

proof fn lemma_no_id_first(notices: Seq<NoticeView>, id: Seq<char>)
    requires
        forall|j: int| 0 <= j < notices.len() ==> (#[trigger] notices[j]).id != id,
    ensures
        id_index(notices, id) is None,
    decreases notices.len(),
{
    if notices.len() > 0 {
        assert(notices[0].id != id);
        assert forall|j: int| 0 <= j < notices.skip(1).len() implies (
        #[trigger] notices.skip(1)[j]).id != id by {
            assert(notices.skip(1)[j] == notices[j + 1]);
        }
        lemma_no_id_first(notices.skip(1), id);
    }
}

pub struct NoticeStore {
    notices: Vec<Notice>,
}

impl View for NoticeStore {
    type V = Seq<NoticeView>;

    closed spec fn view(&self) -> Seq<NoticeView> {
        notice_views(self.notices@)
    }
}

impl NoticeStore {
    /// A store of what was kept on disk.
    pub fn load(notices: Vec<Notice>) -> (r: Self)
        ensures
            r@ == notice_views(notices@),
    {
        NoticeStore { notices }
    }

    /// The notices in the order in which they are kept.
    pub fn all(&self) -> (r: &Vec<Notice>)
        ensures
            notice_views(r@) == self@,
    {
        &self.notices
    }

    /// Newest first.
    pub fn list(&self) -> (r: Vec<Notice>)
        ensures
            notice_views(r@) == newest(self@),
    {
        let ghost all = self@;
        let mut out: Vec<Notice> = Vec::new();
        let mut i: usize = 0;
        proof {
            assert(all.take(0) =~= Seq::<NoticeView>::empty());
            assert(notice_views(out@) =~= newest(all.take(0)));
        }
        while i < self.notices.len()
            invariant
                i <= self.notices@.len(),
                all == notice_views(self.notices@),
                notice_views(out@) == newest(all.take(i as int)),
            decreases self.notices@.len() - i,
        {
            proof {
                assert(all.take(i as int + 1).drop_last() =~= all.take(i as int));
                assert(all.take(i as int + 1).last() == self.notices@[i as int]@);
            }
            insert_newest(&mut out, self.notices[i].clone());
            i += 1;
        }
        proof {
            assert(all.take(all.len() as int) =~= all);
        }
        out
    }

    /// What `slug`'s status page shows.
    pub fn public_for(&self, slug: &str, now: u64) -> (r: PublicNotices)
        ensures
            notice_views(r.open@) == shown(newest(self@), slug@, now, false),
            notice_views(r.recent@) == shown(newest(self@), slug@, now, true),
    {
        let mut rest = self.list();
        let ghost all = notice_views(rest@);
        let mut open: Vec<Notice> = Vec::new();
        let mut recent: Vec<Notice> = Vec::new();
        let ghost mut i: int = 0;
        proof {
            assert(all.take(0) =~= Seq::<NoticeView>::empty());
            assert(all.skip(0) =~= all);
            assert(notice_views(open@) =~= Seq::<NoticeView>::empty());
            assert(notice_views(recent@) =~= Seq::<NoticeView>::empty());
        }
        while rest.len() > 0
            invariant
                0 <= i <= all.len(),
                notice_views(rest@) == all.skip(i),
                notice_views(open@) == shown(all.take(i), slug@, now, false),
                notice_views(recent@) == shown(all.take(i), slug@, now, true),
            decreases rest@.len(),
        {
            proof {
                assert(notice_views(rest@).len() == rest@.len());
                assert(notice_views(rest@)[0] == rest@[0]@);
                assert(all.skip(i)[0] == all[i]);
                assert(all.take(i + 1).drop_last() =~= all.take(i));
                assert(all.take(i + 1).last() == all[i]);
                assert(notice_views(rest@.remove(0)) =~= all.skip(i + 1)) by {
                    assert forall|j: int| 0 <= j < rest@.remove(0).len() implies notice_views(
                        rest@.remove(0),
                    )[j] == all.skip(i + 1)[j] by {
                        assert(notice_views(rest@)[j + 1] == all.skip(i)[j + 1]);
                    }
                }
            }
            let notice = rest.remove(0);
            let fresh = match notice.resolved_at {
                None => true,
                Some(at) => now.saturating_sub(at) < RESOLVED_VISIBLE_SECS,
            };
            if notice.affects(slug) && fresh {
                if notice.state != NoticeState::Resolved {
                    proof {
                        lemma_notice_views_push(open@, notice);
                    }
                    open.push(notice);
                } else {
                    proof {
                        lemma_notice_views_push(recent@, notice);
                    }
                    recent.push(notice);
                }
            }
            proof {
                i = i + 1;
            }
        }
        proof {
            assert(all.take(i) =~= all);
        }
        PublicNotices { open, recent }
    }

    /// Publishes a notice under `id`.
    pub fn create_with_id(&mut self, draft: NoticeDraft, id: String, now: u64) -> (r: Result<
        String,
        NoticeError,
    >)
        ensures
            match draft_problem(draft@) {
                Some(problem) => r == Err::<String, NoticeError>(problem) && final(self)@ == old(
                    self,
                )@,
                None => r == Ok::<String, NoticeError>(id) && final(self)@ == old(self)@.push(
                    new_notice(id@, tidy_draft(draft@), now),
                ),
            },
    {
        let clean = draft.validated()?;
        self.append(clean, id.clone(), now);
        Ok(id)
    }

    fn append(&mut self, draft: NoticeDraft, id: String, now: u64)
        ensures
            final(self)@ == old(self)@.push(new_notice(id@, draft@, now)),
    {
        let resolved_at: Option<u64> = if draft.state == NoticeState::Resolved {
            Some(now)
        } else {
            None
        };
        let notice = Notice {
            id,
            title: draft.title,
            body: draft.body,
            state: draft.state,
            created_at: now,
            updated_at: now,
            resolved_at,
            apps: draft.apps,
        };
        proof {
            lemma_notice_views_push(self.notices@, notice);
        }
        self.notices.push(notice);
    }

    /// Publishes a notice under a new random ID.
    pub fn create(&mut self, draft: NoticeDraft, now: u64) -> (r: Result<String, NoticeError>)
        ensures
            match draft_problem(draft@) {
                Some(problem) => r == Err::<String, NoticeError>(problem) && final(self)@ == old(
                    self,
                )@,
                None => match r {
                    Ok(id) => id@.len() == 2 * ID_BYTES && is_hex(id@) && final(self)@ == old(
                        self,
                    )@.push(new_notice(id@, tidy_draft(draft@), now)),
                    Err(error) => error is Id && final(self)@ == old(self)@,
                },
            },
    {
        let clean = draft.validated()?;
        let id = match random_hex(ID_BYTES) {
            Ok(id) => id,
            Err(error) => {
                return Err(NoticeError::Id(error));
            },
        };
        self.append(clean, id.clone(), now);
        Ok(id)
    }

    fn find(&self, id: &str) -> (r: Option<usize>)
        ensures
            match r {
                Some(i) => i < self.notices@.len() && id_index(self@, id@) == Some(i as int),
                None => id_index(self@, id@) is None && without_id(self@, id@) == self@,
            },
    {
        let mut i: usize = 0;
        while i < self.notices.len()
            invariant
                i <= self.notices@.len(),
                forall|j: int| 0 <= j < i ==> (#[trigger] self@[j]).id != id@,
            decreases self.notices@.len() - i,
        {
            assert(self@[i as int] == self.notices@[i as int]@);
            if same(self.notices[i].id.as_str(), id) {
                proof {
                    lemma_id_index(self@, id@, i as int);
                }
                return Some(i);
            }
            i += 1;
        }
        proof {
            lemma_no_id(self@, id@);
        }
        None
    }

    /// Edits a notice or moves it to another state.
    pub fn update(&mut self, id: &str, draft: NoticeDraft, now: u64) -> (r: Result<(), NoticeError>)
        ensures
            match (draft_problem(draft@), id_index(old(self)@, id@)) {
                (Some(problem), _) => r == Err::<(), NoticeError>(problem) && final(self)@ == old(
                    self,
                )@,
                (None, None) => r matches Err(NoticeError::NotFound(name)) && name@ == id@
                    && final(self)@ == old(self)@,
                (None, Some(i)) => r is Ok && final(self)@ == old(self)@.update(
                    i,
                    edited(old(self)@[i], tidy_draft(draft@), now),
                ),
            },
    {
        let clean = draft.validated()?;
        match self.find(id) {
            None => Err(NoticeError::NotFound(id.to_owned())),
            Some(i) => {
                let ghost before = self.notices@;
                let resolved_at: Option<u64> = match clean.state {
                    NoticeState::Resolved => match self.notices[i].resolved_at {
                        Some(at) => Some(at),
                        None => Some(now),
                    },
                    _ => None,
                };
                let notice = Notice {
                    id: self.notices[i].id.clone(),
                    title: clean.title,
                    body: clean.body,
                    state: clean.state,
                    created_at: self.notices[i].created_at,
                    updated_at: now,
                    resolved_at,
                    apps: clean.apps,
                };
                proof {
                    assert(notice_views(before)[i as int] == before[i as int]@);
                    assert(notice_views(before.update(i as int, notice)) =~= notice_views(
                        before,
                    ).update(i as int, notice@));
                }
                self.notices.set(i, notice);
                Ok(())
            },
        }
    }

    /// Takes a notice down.
    pub fn remove(&mut self, id: &str) -> (r: Result<(), NoticeError>)
        ensures
            final(self)@ == without_id(old(self)@, id@),
            match r {
                Ok(_) => id_index(old(self)@, id@) is Some,
                Err(NoticeError::NotFound(name)) => id_index(old(self)@, id@) is None && name@
                    == id@,
                Err(_) => false,
            },
    {
        if self.find(id).is_none() {
            return Err(NoticeError::NotFound(id.to_owned()));
        }
        let ghost all = self@;
        let mut rest: Vec<Notice> = Vec::new();
        std::mem::swap(&mut rest, &mut self.notices);
        let mut kept: Vec<Notice> = Vec::new();
        let ghost mut i: int = 0;
        proof {
            assert(all.take(0) =~= Seq::<NoticeView>::empty());
            assert(all.skip(0) =~= all);
            assert(notice_views(kept@) =~= Seq::<NoticeView>::empty());
        }
        while rest.len() > 0
            invariant
                0 <= i <= all.len(),
                notice_views(rest@) == all.skip(i),
                notice_views(kept@) == without_id(all.take(i), id@),
            decreases rest@.len(),
        {
            proof {
                assert(notice_views(rest@).len() == rest@.len());
                assert(notice_views(rest@)[0] == rest@[0]@);
                assert(all.skip(i)[0] == all[i]);
                assert(all.take(i + 1).drop_last() =~= all.take(i));
                assert(all.take(i + 1).last() == all[i]);
                assert(notice_views(rest@.remove(0)) =~= all.skip(i + 1)) by {
                    assert forall|j: int| 0 <= j < rest@.remove(0).len() implies notice_views(
                        rest@.remove(0),
                    )[j] == all.skip(i + 1)[j] by {
                        assert(notice_views(rest@)[j + 1] == all.skip(i)[j + 1]);
                    }
                }
            }
            let notice = rest.remove(0);
            if !same(notice.id.as_str(), id) {
                proof {
                    lemma_notice_views_push(kept@, notice);
                }
                kept.push(notice);
            }
            proof {
                i = i + 1;
            }
        }
        proof {
            assert(all.take(i) =~= all);
        }
        self.notices = kept;
        Ok(())
    }
}

fn insert_newest(notices: &mut Vec<Notice>, notice: Notice)
    ensures
        notice_views(final(notices)@) == put_notice(notice_views(old(notices)@), notice@),
{
    let ghost start = notices@;
    let ghost all = notice_views(notices@);
    let mut i: usize = notices.len();
    proof {
        assert(all.take(all.len() as int) =~= all);
        assert(put_notice(all, notice@) + all.skip(i as int) =~= put_notice(all, notice@));
    }
    while i > 0 && notices[i - 1].created_at < notice.created_at
        invariant
            i <= notices@.len(),
            notices@ == start,
            all == notice_views(start),
            put_notice(all.take(i as int), notice@) + all.skip(i as int) == put_notice(
                all,
                notice@,
            ),
        decreases i,
    {
        proof {
            let head = all.take(i as int);
            assert(head.last() == notices@[i as int - 1]@);
            assert(head.drop_last() =~= all.take(i as int - 1));
            let shorter = put_notice(all.take(i as int - 1), notice@);
            assert(shorter.push(all[i as int - 1]) + all.skip(i as int) =~= shorter + all.skip(
                i as int - 1,
            ));
        }
        i -= 1;
    }
    proof {
        let head = all.take(i as int);
        if i > 0 {
            assert(head.last() == notices@[i as int - 1]@);
        }
        assert(put_notice(head, notice@) == head.push(notice@));
        assert(notice_views(notices@.insert(i as int, notice)) =~= head.push(notice@) + all.skip(
            i as int,
        ));
    }
    notices.insert(i, notice);
}

// ---------------------------------------------------------------------------------------
// What holds of every notice
// ---------------------------------------------------------------------------------------

/// Publishing or editing leaves a resolution time exactly on what is resolved.
pub proof fn lemma_resolution_time_follows_the_state(
    notice: NoticeView,
    id: Seq<char>,
    draft: DraftView,
    now: u64,
)
    ensures
        new_notice(id, draft, now).resolved_at is Some == (draft.state == NoticeState::Resolved),
        edited(notice, draft, now).resolved_at is Some == (draft.state == NoticeState::Resolved),
{
}

/// Editing a resolved notice doesn't put it back at the top of the week it stays visible: the
/// time at which it was first resolved counts until it is reopened.
pub proof fn lemma_edits_keep_the_resolution_time(
    notice: NoticeView,
    first: DraftView,
    second: DraftView,
    then_at: u64,
    now: u64,
)
    requires
        first.state == NoticeState::Resolved,
        second.state == NoticeState::Resolved,
    ensures
        edited(edited(notice, first, then_at), second, now).resolved_at == edited(
            notice,
            first,
            then_at,
        ).resolved_at,
{
}

/// A page shows every visible notice once: among the open ones when it isn't resolved, among
/// the recent ones when it is, and nowhere else.
pub proof fn lemma_shown_notices_are_the_visible_ones(
    notices: Seq<NoticeView>,
    slug: Seq<char>,
    now: u64,
    resolved: bool,
    notice: NoticeView,
)
    ensures
        shown(notices, slug, now, resolved).contains(notice) == (notices.contains(notice)
            && visible(notice, slug, now) && (notice.state == NoticeState::Resolved) == resolved),
    decreases notices.len(),
{
    if notices.len() > 0 {
        let front = notices.drop_last();
        lemma_shown_notices_are_the_visible_ones(front, slug, now, resolved, notice);
        let kept = shown(front, slug, now, resolved);
        let all = shown(notices, slug, now, resolved);
        if kept.contains(notice) {
            let k = choose|k: int| 0 <= k < kept.len() && kept[k] == notice;
            assert(all[k] == notice);
        }
        if front.contains(notice) {
            let k = choose|k: int| 0 <= k < front.len() && front[k] == notice;
            assert(notices[k] == notice);
        }
        if notices.contains(notice) {
            let k = choose|k: int| 0 <= k < notices.len() && notices[k] == notice;
            if k < front.len() {
                assert(front[k] == notice);
            }
        }
        if all.contains(notice) {
            let k = choose|k: int| 0 <= k < all.len() && all[k] == notice;
            if k < kept.len() {
                assert(kept[k] == notice);
            }
        }
        if notice == notices.last() {
            assert(notices[notices.len() - 1] == notice);
            if visible(notice, slug, now) && (notice.state == NoticeState::Resolved) == resolved {
                assert(all[all.len() - 1] == notice);
            }
        }
    }
}

/// A resolved notice drops off a week after it was resolved, on every page.
pub proof fn lemma_old_notices_drop_off(notice: NoticeView, slug: Seq<char>, now: u64)
    requires
        notice.resolved_at is Some,
        now >= notice.resolved_at->0 + RESOLVED_VISIBLE_SECS,
    ensures
        !visible(notice, slug, now),
{
}

/// A notice that names no app is on every page that it can be on.
pub proof fn lemma_unnamed_notices_are_everywhere(
    notice: NoticeView,
    one: Seq<char>,
    other: Seq<char>,
    now: u64,
)
    requires
        notice.apps.len() == 0,
    ensures
        visible(notice, one, now) == visible(notice, other, now),
{
}

/// Nothing is left of a notice that was taken down, and every other one stays.
pub proof fn lemma_removed_notices_are_gone(
    notices: Seq<NoticeView>,
    id: Seq<char>,
    notice: NoticeView,
)
    ensures
        without_id(notices, id).contains(notice) == (notices.contains(notice) && notice.id != id),
    decreases notices.len(),
{
    if notices.len() > 0 {
        let front = notices.drop_last();
        lemma_removed_notices_are_gone(front, id, notice);
        let kept = without_id(front, id);
        let all = without_id(notices, id);
        if kept.contains(notice) {
            let k = choose|k: int| 0 <= k < kept.len() && kept[k] == notice;
            assert(all[k] == notice);
        }
        if front.contains(notice) {
            let k = choose|k: int| 0 <= k < front.len() && front[k] == notice;
            assert(notices[k] == notice);
        }
        if notices.contains(notice) {
            let k = choose|k: int| 0 <= k < notices.len() && notices[k] == notice;
            if k < front.len() {
                assert(front[k] == notice);
            }
        }
        if all.contains(notice) {
            let k = choose|k: int| 0 <= k < all.len() && all[k] == notice;
            if k < kept.len() {
                assert(kept[k] == notice);
            }
        }
        if notice == notices.last() {
            assert(notices[notices.len() - 1] == notice);
            if notice.id != id {
                assert(all[all.len() - 1] == notice);
            }
        }
    }
}

proof fn lemma_before_total(a: Seq<char>, b: Seq<char>)
    ensures
        a == b || before(a, b) || before(b, a),
        !before(a, a),
    decreases a.len(),
{
    if a.len() > 0 && b.len() > 0 && a[0] == b[0] {
        lemma_before_total(a.skip(1), b.skip(1));
        if a.skip(1) == b.skip(1) {
            assert(a =~= seq![a[0]] + a.skip(1));
            assert(b =~= seq![b[0]] + b.skip(1));
        }
    } else if a.len() == 0 && b.len() == 0 {
        assert(a =~= b);
    }
    if a.len() > 0 {
        lemma_before_total(a.skip(1), a.skip(1));
    }
}

proof fn lemma_before_transitive(a: Seq<char>, b: Seq<char>, c: Seq<char>)
    requires
        before(a, b),
        before(b, c),
    ensures
        before(a, c),
    decreases a.len(),
{
    if a.len() > 0 && a[0] == b[0] && b[0] == c[0] {
        lemma_before_transitive(a.skip(1), b.skip(1), c.skip(1));
    }
}

/// Whether names stand in order, each once.
pub open spec fn increasing(names: Seq<Seq<char>>) -> bool {
    forall|i: int, j: int|
        0 <= i < j < names.len() ==> before(#[trigger] names[i], #[trigger] names[j])
}

proof fn lemma_put_name(names: Seq<Seq<char>>, name: Seq<char>)
    requires
        increasing(names),
    ensures
        increasing(put_name(names, name)),
        forall|x: Seq<char>| #[trigger]
            put_name(names, name).contains(x) == (names.contains(x) || x == name),
    decreases names.len(),
{
    let out = put_name(names, name);
    if names.len() == 0 || before(names.last(), name) {
        assert forall|i: int, j: int| 0 <= i < j < out.len() implies before(
            #[trigger] out[i],
            #[trigger] out[j],
        ) by {
            if j == names.len() && i < names.len() - 1 {
                assert(before(names[i], names[names.len() - 1]));
                lemma_before_transitive(names[i], names.last(), name);
            }
        }
        assert forall|x: Seq<char>| #[trigger] out.contains(x) == (names.contains(x) || x
            == name) by {
            if names.contains(x) {
                let k = choose|k: int| 0 <= k < names.len() && names[k] == x;
                assert(out[k] == x);
            }
            assert(out[names.len() as int] == name);
            if out.contains(x) {
                let k = choose|k: int| 0 <= k < out.len() && out[k] == x;
                if k < names.len() {
                    assert(names[k] == x);
                }
            }
        }
    } else if names.last() == name {
        assert(names[names.len() - 1] == name);
    } else {
        lemma_before_total(names.last(), name);
        let front = names.drop_last();
        let last = names.last();
        assert forall|i: int, j: int| 0 <= i < j < front.len() implies before(
            #[trigger] front[i],
            #[trigger] front[j],
        ) by {
            assert(before(names[i], names[j]));
        }
        lemma_put_name(front, name);
        let placed = put_name(front, name);
        assert forall|i: int| 0 <= i < placed.len() implies before(#[trigger] placed[i], last) by {
            assert(placed.contains(placed[i]));
            if placed[i] != name {
                assert(front.contains(placed[i]));
                let k = choose|k: int| 0 <= k < front.len() && front[k] == placed[i];
                assert(before(names[k], names[names.len() - 1]));
            }
        }
        assert forall|x: Seq<char>| #[trigger] out.contains(x) == (names.contains(x) || x
            == name) by {
            assert(placed.contains(x) == (front.contains(x) || x == name));
            if placed.contains(x) {
                let k = choose|k: int| 0 <= k < placed.len() && placed[k] == x;
                assert(out[k] == x);
            }
            if front.contains(x) {
                let k = choose|k: int| 0 <= k < front.len() && front[k] == x;
                assert(names[k] == x);
            }
            if names.contains(x) {
                let k = choose|k: int| 0 <= k < names.len() && names[k] == x;
                if k < front.len() {
                    assert(front[k] == x);
                } else {
                    assert(out[out.len() - 1] == x);
                }
            }
            if out.contains(x) {
                let k = choose|k: int| 0 <= k < out.len() && out[k] == x;
                if k < placed.len() {
                    assert(placed[k] == x);
                } else {
                    assert(names[names.len() - 1] == x);
                }
            }
        }
    }
}

/// A notice's apps are the ones that were given, in order and each once.
pub proof fn lemma_apps_are_ordered_and_distinct(names: Seq<Seq<char>>)
    ensures
        increasing(in_order(names)),
        forall|x: Seq<char>| #[trigger] in_order(names).contains(x) == names.contains(x),
    decreases names.len(),
{
    if names.len() > 0 {
        let front = names.drop_last();
        lemma_apps_are_ordered_and_distinct(front);
        lemma_put_name(in_order(front), names.last());
        assert forall|x: Seq<char>| #[trigger] in_order(names).contains(x) == names.contains(
            x,
        ) by {
            assert(in_order(front).contains(x) == front.contains(x));
            if front.contains(x) {
                let k = choose|k: int| 0 <= k < front.len() && front[k] == x;
                assert(names[k] == x);
            }
            if names.contains(x) {
                let k = choose|k: int| 0 <= k < names.len() && names[k] == x;
                if k < front.len() {
                    assert(front[k] == x);
                }
            }
            if x == names.last() {
                assert(names[names.len() - 1] == x);
            }
        }
    } else {
        assert(in_order(names) =~= names);
    }
}

} // verus!
