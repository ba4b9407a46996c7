//! Editable alert message templates, one per kind (down, reminder, degraded, recovered). A
//! kind without a custom template uses the default of the UI's language (catalog keys
//! `alert.default_*`).
//!
//! Placeholders: `{app}`, `{message}`, `{latency}` (e.g. `412 ms`), `{link}` (the app's
//! dashboard page), `{mentions}` (only filled on down and reminders) and `{duration}` (how long
//! the outage has lasted).

use vstd::prelude::*;

use crate::i18n::I18n;
use crate::text::char_count;
use crate::text::is_white;
use crate::text::join;
use crate::text::joined;
use crate::text::lemma_trim;
use crate::text::lemma_views_push;
use crate::text::lines;
use crate::text::lines_of;
use crate::text::replace;
use crate::text::replaced;
use crate::text::trim;
use crate::text::trimmed;
use crate::text::views;
use crate::text::words;
use crate::text::words_of;
use crate::weburl::opt_view;

verus! {

/// Longest template accepted from the settings page.
pub const MAX_TEMPLATE_CHARS: usize = 1000;

#[derive(Debug, Clone, Copy, PartialEq, Eq, Structural)]
pub enum TemplateKind {
    Down,
    /// Still down, every so often.
    Reminder,
    Degraded,
    Recovered,
}

/// Custom templates as stored; `None` = use the default.
#[derive(Debug, PartialEq, Eq)]
pub struct AlertTemplates {
    pub down: Option<String>,
    pub reminder: Option<String>,
    pub degraded: Option<String>,
    pub recovered: Option<String>,
}

/// The template of one kind.
pub open spec fn slot(t: AlertTemplates, kind: TemplateKind) -> Option<Seq<char>> {
    match kind {
        TemplateKind::Down => opt_view(t.down),
        TemplateKind::Reminder => opt_view(t.reminder),
        TemplateKind::Degraded => opt_view(t.degraded),
        TemplateKind::Recovered => opt_view(t.recovered),
    }
}

/// A template trimmed; a blank one is none at all.
pub open spec fn clean(t: Option<Seq<char>>) -> Option<Seq<char>> {
    match t {
        Some(text) => if trim(text).len() == 0 {
            None
        } else {
            Some(trim(text))
        },
        None => None,
    }
}

/// Whether a template is longer than the settings page accepts.
pub open spec fn overlong(t: Option<Seq<char>>) -> bool {
    t is Some && t->0.len() > MAX_TEMPLATE_CHARS
}

impl Default for AlertTemplates {
    fn default() -> (r: Self)
        ensures
            forall|kind: TemplateKind| #[trigger] slot(r, kind) is None,
    {
        AlertTemplates { down: None, reminder: None, degraded: None, recovered: None }
    }
}

fn cleaned(t: Option<String>) -> (r: Option<String>)
    ensures
        opt_view(r) == clean(opt_view(t)),
{
    match t {
        Some(text) => {
            let rest = trimmed(text.as_str());
            if rest.as_str().is_empty() {
                None
            } else {
                Some(rest)
            }
        },
        None => None,
    }
}

fn too_many_chars(t: Option<&String>) -> (r: bool)
    ensures
        r == (t is Some && t->0@.len() > MAX_TEMPLATE_CHARS),
{
    match t {
        Some(text) => char_count(text.as_str()) > MAX_TEMPLATE_CHARS,
        None => false,
    }
}

impl AlertTemplates {
    pub fn get(&self, kind: TemplateKind) -> (r: Option<&String>)
        ensures
            match r {
                Some(text) => slot(*self, kind) == Some(text@),
                None => slot(*self, kind) is None,
            },
    {
        match kind {
            TemplateKind::Down => self.down.as_ref(),
            TemplateKind::Reminder => self.reminder.as_ref(),
            TemplateKind::Degraded => self.degraded.as_ref(),
            TemplateKind::Recovered => self.recovered.as_ref(),
        }
    }

    /// Trims every template and turns blank ones into `None` (= back to the default).
    #[must_use]
    pub fn normalized(self) -> (r: Self)
        ensures
            forall|kind: TemplateKind| #[trigger] slot(r, kind) == clean(slot(self, kind)),
    {
        AlertTemplates {
            down: cleaned(self.down),
            reminder: cleaned(self.reminder),
            degraded: cleaned(self.degraded),
            recovered: cleaned(self.recovered),
        }
    }

    /// The first template longer than `MAX_TEMPLATE_CHARS`, if any.
    #[must_use]
    pub fn too_long(&self) -> (r: Option<TemplateKind>)
        ensures
            r == if overlong(slot(*self, TemplateKind::Down)) {
                Some(TemplateKind::Down)
            } else if overlong(slot(*self, TemplateKind::Reminder)) {
                Some(TemplateKind::Reminder)
            } else if overlong(slot(*self, TemplateKind::Degraded)) {
                Some(TemplateKind::Degraded)
            } else if overlong(slot(*self, TemplateKind::Recovered)) {
                Some(TemplateKind::Recovered)
            } else {
                None
            },
    {
        if too_many_chars(self.get(TemplateKind::Down)) {
            Some(TemplateKind::Down)
        } else if too_many_chars(self.get(TemplateKind::Reminder)) {
            Some(TemplateKind::Reminder)
        } else if too_many_chars(self.get(TemplateKind::Degraded)) {
            Some(TemplateKind::Degraded)
        } else if too_many_chars(self.get(TemplateKind::Recovered)) {
            Some(TemplateKind::Recovered)
        } else {
            None
        }
    }
}

/// The values a template is filled with.
#[derive(Debug)]
pub struct TemplateVars {
    pub app: String,
    pub message: String,
    /// `412 ms`, or empty when the check got no response.
    pub latency: String,
    pub link: String,
    pub mentions: String,
    /// `25 min`, or empty when there's no outage to measure.
    pub duration: String,
}

impl Default for TemplateVars {
    fn default() -> (r: Self)
        ensures
            r.app@.len() == 0,
            r.message@.len() == 0,
            r.latency@.len() == 0,
            r.link@.len() == 0,
            r.mentions@.len() == 0,
            r.duration@.len() == 0,
    {
        TemplateVars {
            app: String::new(),
            message: String::new(),
            latency: String::new(),
            link: String::new(),
            mentions: String::new(),
            duration: String::new(),
        }
    }
}

/// The values of a template's placeholders.
pub struct VarsView {
    pub app: Seq<char>,
    pub message: Seq<char>,
    pub latency: Seq<char>,
    pub link: Seq<char>,
    pub mentions: Seq<char>,
    pub duration: Seq<char>,
}

impl View for TemplateVars {
    type V = VarsView;

    open spec fn view(&self) -> VarsView {
        VarsView {
            app: self.app@,
            message: self.message@,
            latency: self.latency@,
            link: self.link@,
            mentions: self.mentions@,
            duration: self.duration@,
        }
    }
}

/// `template` with its placeholders filled, and without the brackets that empty ones leave.
pub open spec fn filled_in(template: Seq<char>, vars: VarsView) -> Seq<char> {
    let t = replace(template, "{app}"@, vars.app);
    let t = replace(t, "{message}"@, vars.message);
    let t = replace(t, "{latency}"@, vars.latency);
    let t = replace(t, "{link}"@, vars.link);
    let t = replace(t, "{mentions}"@, vars.mentions);
    let t = replace(t, "{duration}"@, vars.duration);
    let t = replace(t, "( )"@, ""@);
    replace(t, "()"@, ""@)
}

/// A line's words with one space between them.
pub open spec fn tidy_line(line: Seq<char>) -> Seq<char> {
    join(words(line), " "@)
}

/// Lines without the blank ones at the end.
pub open spec fn without_blank_end(ls: Seq<Seq<char>>) -> Seq<Seq<char>>
    decreases ls.len(),
{
    if ls.len() > 0 && ls.last().len() == 0 {
        without_blank_end(ls.drop_last())
    } else {
        ls
    }
}

/// The lines of a text, tidied.
pub open spec fn tidy_lines(text: Seq<char>) -> Seq<Seq<char>> {
    without_blank_end(lines(text).map_values(|line: Seq<char>| tidy_line(line)))
}

/// What a template reads with its values.
pub open spec fn rendered(template: Seq<char>, vars: VarsView) -> Seq<char> {
    join(tidy_lines(filled_in(template, vars)), "\n"@)
}

fn fill(template: &str, vars: &TemplateVars) -> (r: String)
    ensures
        r@ == filled_in(template@, vars@),
{
    proof {
        reveal_strlit("{app}");
        reveal_strlit("{message}");
        reveal_strlit("{latency}");
        reveal_strlit("{link}");
        reveal_strlit("{mentions}");
        reveal_strlit("{duration}");
        reveal_strlit("( )");
        reveal_strlit("()");
    }
    let t = replaced(template, "{app}", vars.app.as_str());
    let t = replaced(t.as_str(), "{message}", vars.message.as_str());
    let t = replaced(t.as_str(), "{latency}", vars.latency.as_str());
    let t = replaced(t.as_str(), "{link}", vars.link.as_str());
    let t = replaced(t.as_str(), "{mentions}", vars.mentions.as_str());
    let t = replaced(t.as_str(), "{duration}", vars.duration.as_str());
    let t = replaced(t.as_str(), "( )", "");
    replaced(t.as_str(), "()", "")
}

/// Fills `template` and tidies what empty placeholders leave behind: leading/trailing spaces on
/// each line, empty `()`, and blank lines at the end (e.g. an empty `{link}`).
#[must_use]
pub fn render(template: &str, vars: &TemplateVars) -> (r: String)
    ensures
        r@ == rendered(template@, vars@),
{
    let filled = fill(template, vars);
    let raw = lines_of(filled.as_str());
    let ghost want = lines(filled@).map_values(|line: Seq<char>| tidy_line(line));
    let mut tidied: Vec<String> = Vec::new();
    let mut i: usize = 0;
    while i < raw.len()
        invariant
            i <= raw@.len(),
            views(raw@) == lines(filled@),
            want == lines(filled@).map_values(|line: Seq<char>| tidy_line(line)),
            views(tidied@) == want.take(i as int),
        decreases raw@.len() - i,
    {
        let parts = words_of(raw[i].as_str());
        let line = joined(&parts, " ");
        proof {
            assert(views(raw@)[i as int] == raw@[i as int]@);
            assert(want[i as int] == line@);
            lemma_views_push(tidied@, line);
            assert(want.take(i as int + 1) =~= want.take(i as int).push(line@));
        }
        tidied.push(line);
        i += 1;
    }
    proof {
        assert(want.take(i as int) =~= want);
    }
    while tidied.len() > 0 && tidied[tidied.len() - 1].as_str().is_empty()
        invariant
            without_blank_end(views(tidied@)) == without_blank_end(want),
        decreases tidied@.len(),
    {
        let ghost before = tidied@;
        let dropped = tidied.pop();
        proof {
            assert(views(before).drop_last() =~= views(tidied@));
            assert(views(before).last() == before.last()@);
        }
    }
    proof {
        if tidied@.len() > 0 {
            assert(views(tidied@).last() == tidied@.last()@);
        }
    }
    joined(&tidied, "\n")
}

/// Custom templates plus the language defaults.
#[derive(Debug)]
pub struct TemplateStore {
    custom: AlertTemplates,
    defaults: AlertTemplates,
}

/// The catalog key of a kind's default template.
pub open spec fn default_key(kind: TemplateKind) -> Seq<char> {
    match kind {
        TemplateKind::Down => "alert.default_down"@,
        TemplateKind::Reminder => "alert.default_reminder"@,
        TemplateKind::Degraded => "alert.default_degraded"@,
        TemplateKind::Recovered => "alert.default_recovered"@,
    }
}

impl TemplateStore {
    /// The custom template of a kind, if it has one.
    pub closed spec fn customized(&self, kind: TemplateKind) -> Option<Seq<char>> {
        slot(self.custom, kind)
    }

    /// The default template of a kind.
    pub closed spec fn fallback(&self, kind: TemplateKind) -> Seq<char> {
        match slot(self.defaults, kind) {
            Some(text) => text,
            None => Seq::empty(),
        }
    }

    /// The template in effect for a kind: the custom one, else the default.
    pub open spec fn in_effect(&self, kind: TemplateKind) -> Seq<char> {
        match self.customized(kind) {
            Some(text) => text,
            None => self.fallback(kind),
        }
    }

    fn defaults(i18n: &I18n) -> (r: AlertTemplates)
        ensures
            forall|kind: TemplateKind| #[trigger]
                slot(r, kind) == Some(i18n.template(default_key(kind))),
    {
        AlertTemplates {
            down: Some(i18n.line("alert.default_down")),
            reminder: Some(i18n.line("alert.default_reminder")),
            degraded: Some(i18n.line("alert.default_degraded")),
            recovered: Some(i18n.line("alert.default_recovered")),
        }
    }

    /// A store of these custom templates (blank = default) over the language's defaults.
    #[must_use]
    pub fn new(custom: AlertTemplates, i18n: &I18n) -> (r: Self)
        ensures
            forall|kind: TemplateKind| #[trigger]
                r.customized(kind) == clean(slot(custom, kind)),
            forall|kind: TemplateKind| #[trigger]
                r.fallback(kind) == i18n.template(default_key(kind)),
    {
        let r = TemplateStore {
            custom: custom.normalized(),
            defaults: TemplateStore::defaults(i18n),
        };
        proof {
            assert forall|kind: TemplateKind| #[trigger] r.fallback(kind) == i18n.template(
                default_key(kind),
            ) by {
                assert(slot(r.defaults, kind) == Some(i18n.template(default_key(kind))));
            }
        }
        r
    }

    /// Defaults only.
    #[must_use]
    pub fn in_memory(i18n: &I18n) -> (r: Self)
        ensures
            forall|kind: TemplateKind| #[trigger] r.customized(kind) is None,
            forall|kind: TemplateKind| #[trigger]
                r.fallback(kind) == i18n.template(default_key(kind)),
    {
        TemplateStore::new(AlertTemplates::default(), i18n)
    }

    #[must_use]
    pub fn custom(&self) -> (r: &AlertTemplates)
        ensures
            forall|kind: TemplateKind| #[trigger] slot(*r, kind) == self.customized(kind),
    {
        &self.custom
    }

    #[must_use]
    pub fn default_for(&self, kind: TemplateKind) -> (r: String)
        ensures
            r@ == self.fallback(kind),
    {
        match self.defaults.get(kind) {
            Some(text) => text.clone(),
            None => String::new(),
        }
    }

    /// Whether `kind` has a custom template (vs. the language default).
    #[must_use]
    pub fn is_custom(&self, kind: TemplateKind) -> (r: bool)
        ensures
            r == (self.customized(kind) is Some),
    {
        self.custom.get(kind).is_some()
    }

    /// The template in effect for `kind`: the custom one, else the default.
    #[must_use]
    pub fn effective(&self, kind: TemplateKind) -> (r: String)
        ensures
            r@ == self.in_effect(kind),
    {
        match self.custom.get(kind) {
            Some(text) => text.clone(),
            None => self.default_for(kind),
        }
    }

    /// Replaces the custom templates (blank = default).
    pub fn save(&mut self, templates: AlertTemplates)
        ensures
            forall|kind: TemplateKind| #[trigger]
                final(self).customized(kind) == clean(slot(templates, kind)),
            forall|kind: TemplateKind| #[trigger]
                final(self).fallback(kind) == old(self).fallback(kind),
    {
        self.custom = templates.normalized();
    }
}

// ---------------------------------------------------------------------------------------
// What holds of every template
// ---------------------------------------------------------------------------------------

/// Cleaning a template twice is cleaning it once.
pub proof fn lemma_cleaning_is_idempotent(t: Option<Seq<char>>)
    ensures
        clean(clean(t)) == clean(t),
        clean(t) is Some ==> clean(t)->0.len() > 0,
{
    if let Some(text) = t {
        lemma_trim(text);
    }
}

proof fn lemma_words(s: Seq<char>)
    ensures
        forall|k: int| 0 <= k < words(s).len() ==> (#[trigger] words(s)[k]).len() > 0,
        forall|k: int, j: int|
            0 <= k < words(s).len() && 0 <= j < words(s)[k].len() ==> !is_white(
                #[trigger] words(s)[k][j],
            ),
        s.len() > 0 && !is_white(s.last()) ==> words(s).len() > 0,
    decreases s.len(),
{
    if s.len() > 0 {
        let front = s.drop_last();
        lemma_words(front);
        if s.len() >= 2 {
            assert(front.last() == s[s.len() - 2]);
        }
        let before = words(front);
        let w = words(s);
        assert forall|k: int, j: int| 0 <= k < w.len() && 0 <= j < w[k].len() implies !is_white(
            #[trigger] w[k][j],
        ) by {
            if k < before.len() && j < before[k].len() {
                assert(!is_white(before[k][j]));
                assert(w[k][j] == before[k][j]);
            } else {
                assert(w[k][j] == s.last());
            }
        }
    }
}

proof fn lemma_join_ends(parts: Seq<Seq<char>>, sep: Seq<char>)
    requires
        forall|k: int| 0 <= k < parts.len() ==> (#[trigger] parts[k]).len() > 0,
    ensures
        parts.len() == 0 <==> join(parts, sep).len() == 0,
        parts.len() > 0 ==> join(parts, sep)[0] == parts[0][0] && join(parts, sep).last()
            == parts.last().last(),
    decreases parts.len(),
{
    if parts.len() == 1 {
        assert(parts[0].len() > 0);
    } else if parts.len() > 1 {
        let front = parts.drop_last();
        assert forall|k: int| 0 <= k < front.len() implies (#[trigger] front[k]).len() > 0 by {
            assert(front[k] == parts[k]);
        }
        lemma_join_ends(front, sep);
        assert(front[0] == parts[0]);
        assert(parts[parts.len() - 1].len() > 0);
    }
}

/// A tidied line neither begins nor ends with white space.
pub proof fn lemma_tidy_lines_have_no_outer_space(line: Seq<char>)
    ensures
        tidy_line(line).len() > 0 ==> !is_white(tidy_line(line)[0]) && !is_white(
            tidy_line(line).last(),
        ),
{
    lemma_words(line);
    let w = words(line);
    lemma_join_ends(w, " "@);
    if w.len() > 0 {
        assert(w[0].len() > 0);
        assert(!is_white(w[0][0]));
        let last = w[w.len() - 1];
        assert(last.len() > 0);
        assert(!is_white(w[w.len() - 1][last.len() - 1]));
    }
}

/// A rendered message never ends in a blank line.
pub proof fn lemma_no_blank_end(ls: Seq<Seq<char>>)
    ensures
        without_blank_end(ls).len() > 0 ==> without_blank_end(ls).last().len() > 0,
        without_blank_end(ls).len() <= ls.len(),
        without_blank_end(ls) == ls.take(without_blank_end(ls).len() as int),
    decreases ls.len(),
{
    if ls.len() > 0 && ls.last().len() == 0 {
        lemma_no_blank_end(ls.drop_last());
        let kept = without_blank_end(ls);
        assert(ls.drop_last().take(kept.len() as int) =~= ls.take(kept.len() as int));
    } else {
        assert(ls.take(ls.len() as int) =~= ls);
    }
}

} // verus!
