//! What holds of every wording: of templates and what fills them, and of the catalogs.

use vstd::prelude::*;

use crate::alert_templates::clean;
use crate::alert_templates::default_key;
use crate::alert_templates::filled_in;
use crate::alert_templates::overlong;
use crate::alert_templates::rendered;
use crate::alert_templates::slot;
use crate::alert_templates::tidy_line;
use crate::alert_templates::without_blank_end;
use crate::alert_templates::AlertTemplates;
use crate::alert_templates::TemplateKind;
use crate::alert_templates::TemplateStore;
use crate::alert_templates::VarsView;
use crate::bundles::BundleProblem;
use crate::catalogs::EN;
use crate::catalogs::ES;
use crate::i18n::braced;
use crate::i18n::filled;
use crate::i18n::lang_code;
use crate::i18n::lang_named;
use crate::i18n::lookup;
use crate::i18n::source;
use crate::i18n::I18n;
use crate::i18n::Lang;
use crate::i18n::Localize;
use crate::outbound::OutboundError;
use crate::text::ascii_lower;
use crate::text::contains;
use crate::text::decimal;
use crate::text::join;
use crate::text::lines;
use crate::text::occurs_at;
use crate::text::replace;
use crate::text::trim;
use crate::text::words;
use crate::text_laws::lemma_nothing_to_replace;
use crate::text_laws::lemma_occurrences_are_replaced;

verus! {

/// Each kind has its own template, and its own default in the catalog.
pub proof fn lemma_kinds_have_their_own(t: AlertTemplates)
    ensures
        slot(t, TemplateKind::Down) is Some <==> t.down is Some,
        t.down is Some ==> slot(t, TemplateKind::Down) == Some(t.down->0@),
        slot(t, TemplateKind::Reminder) is Some <==> t.reminder is Some,
        t.reminder is Some ==> slot(t, TemplateKind::Reminder) == Some(t.reminder->0@),
        slot(t, TemplateKind::Degraded) is Some <==> t.degraded is Some,
        t.degraded is Some ==> slot(t, TemplateKind::Degraded) == Some(t.degraded->0@),
        slot(t, TemplateKind::Recovered) is Some <==> t.recovered is Some,
        t.recovered is Some ==> slot(t, TemplateKind::Recovered) == Some(t.recovered->0@),
        default_key(TemplateKind::Down) == "alert.default_down"@,
        default_key(TemplateKind::Reminder) == "alert.default_reminder"@,
        default_key(TemplateKind::Degraded) == "alert.default_degraded"@,
        default_key(TemplateKind::Recovered) == "alert.default_recovered"@,
{
}

/// A template is kept trimmed unless nothing is left of it; one of more than a thousand
/// characters is too long.
pub proof fn lemma_what_is_kept_of_a_template(text: Seq<char>)
    ensures
        clean(None) is None,
        clean(Some(text)) is None <==> trim(text).len() == 0,
        trim(text).len() > 0 ==> clean(Some(text)) == Some(trim(text)),
        overlong(Some(text)) <==> text.len() >= 1001,
        !overlong(None),
{
}

/// The template in effect is the custom one where there is one, and else the default.
pub proof fn lemma_custom_templates_come_first(store: TemplateStore, kind: TemplateKind)
    ensures
        store.customized(kind) is Some ==> Some(store.in_effect(kind)) == store.customized(kind),
        store.customized(kind) is None ==> store.in_effect(kind) == store.fallback(kind),
{
}

proof fn lemma_lacks(s: Seq<char>, from: Seq<char>, to: Seq<char>)
    requires
        from.len() > 0,
        forall|i: int| 0 <= i < s.len() ==> #[trigger] s[i] != from[0],
    ensures
        replace(s, from, to) == s,
{
    if contains(s, from) {
        let i = choose|i: int| occurs_at(s, from, i);
        assert(s.subrange(i, i + from.len())[0] == s[i]);
    }
    lemma_nothing_to_replace(s, from, to);
}

proof fn lemma_another_slot(
    a: Seq<char>,
    own: Seq<char>,
    b: Seq<char>,
    from: Seq<char>,
    to: Seq<char>,
    d: int,
)
    requires
        plain(a),
        plain(b),
        0 < d < own.len(),
        d < from.len(),
        own[d] != from[d],
        from[0] == '{',
        forall|i: int| 0 < i < own.len() ==> #[trigger] own[i] != '{',
    ensures
        replace(a + own + b, from, to) == a + own + b,
{
    let s = a + own + b;
    if contains(s, from) {
        let i = choose|i: int| occurs_at(s, from, i);
        let found = s.subrange(i, i + from.len());
        assert(found[0] == s[i]);
        assert(found[d] == s[i + d]);
        if i < a.len() {
            assert(s[i] == a[i]);
        } else if i < a.len() + own.len() {
            assert(s[i] == own[i - a.len()]);
            assert(i == a.len());
            assert(s[i + d] == own[d]);
        } else {
            assert(s[i] == b[i - a.len() - own.len()]);
        }
    }
    lemma_nothing_to_replace(s, from, to);
}

proof fn lemma_own_slot(a: Seq<char>, own: Seq<char>, b: Seq<char>, to: Seq<char>)
    requires
        plain(a),
        plain(b),
        own.len() > 0,
        own[0] == '{',
    ensures
        replace(a + own + b, own, to) == a + to + b,
{
    let s = a + own + b;
    assert forall|i: int| 0 <= i < a.len() implies !#[trigger] occurs_at(s, own, i) by {
        if occurs_at(s, own, i) {
            assert(s.subrange(i, i + own.len())[0] == a[i]);
        }
    }
    lemma_occurrences_are_replaced(a, own, b, to);
    lemma_lacks(b, own, to);
}

/// Whether a text has neither braces nor brackets that open.
pub open spec fn plain(s: Seq<char>) -> bool {
    forall|i: int| 0 <= i < s.len() ==> #[trigger] s[i] != '{' && s[i] != '('
}

proof fn lemma_plain_concat(a: Seq<char>, v: Seq<char>, b: Seq<char>)
    requires
        plain(a),
        plain(v),
        plain(b),
    ensures
        plain(a + v + b),
{
    let s = a + v + b;
    assert forall|i: int| 0 <= i < s.len() implies #[trigger] s[i] != '{' && s[i] != '(' by {
        if i < a.len() {
            assert(s[i] == a[i]);
        } else if i < a.len() + v.len() {
            assert(s[i] == v[i - a.len()]);
        } else {
            assert(s[i] == b[i - a.len() - v.len()]);
        }
    }
}

proof fn lemma_slot_names()
    ensures
        "{app}"@ == seq!['{', 'a', 'p', 'p', '}'],
        "{message}"@ == seq!['{', 'm', 'e', 's', 's', 'a', 'g', 'e', '}'],
        "{latency}"@ == seq!['{', 'l', 'a', 't', 'e', 'n', 'c', 'y', '}'],
        "{link}"@ == seq!['{', 'l', 'i', 'n', 'k', '}'],
        "{mentions}"@ == seq!['{', 'm', 'e', 'n', 't', 'i', 'o', 'n', 's', '}'],
        "{duration}"@ == seq!['{', 'd', 'u', 'r', 'a', 't', 'i', 'o', 'n', '}'],
        "( )"@ == seq!['(', ' ', ')'],
        "()"@ == seq!['(', ')'],
        ""@.len() == 0,
{
    reveal_strlit("{app}");
    reveal_strlit("{message}");
    reveal_strlit("{latency}");
    reveal_strlit("{link}");
    reveal_strlit("{mentions}");
    reveal_strlit("{duration}");
    reveal_strlit("( )");
    reveal_strlit("()");
    reveal_strlit("");
    assert("{app}"@ =~= seq!['{', 'a', 'p', 'p', '}']);
    assert("{message}"@ =~= seq!['{', 'm', 'e', 's', 's', 'a', 'g', 'e', '}']);
    assert("{latency}"@ =~= seq!['{', 'l', 'a', 't', 'e', 'n', 'c', 'y', '}']);
    assert("{link}"@ =~= seq!['{', 'l', 'i', 'n', 'k', '}']);
    assert("{mentions}"@ =~= seq!['{', 'm', 'e', 'n', 't', 'i', 'o', 'n', 's', '}']);
    assert("{duration}"@ =~= seq!['{', 'd', 'u', 'r', 'a', 't', 'i', 'o', 'n', '}']);
    assert("( )"@ =~= seq!['(', ' ', ')']);
    assert("()"@ =~= seq!['(', ')']);
}

/// A template without placeholders and brackets reads as it is.
pub proof fn lemma_plain_templates_stay(t: Seq<char>, vars: VarsView)
    requires
        plain(t),
    ensures
        filled_in(t, vars) == t,
{
    lemma_slot_names();
    lemma_lacks(t, "{app}"@, vars.app);
    lemma_lacks(t, "{message}"@, vars.message);
    lemma_lacks(t, "{latency}"@, vars.latency);
    lemma_lacks(t, "{link}"@, vars.link);
    lemma_lacks(t, "{mentions}"@, vars.mentions);
    lemma_lacks(t, "{duration}"@, vars.duration);
    lemma_lacks(t, "( )"@, ""@);
    lemma_lacks(t, "()"@, ""@);
}

/// Each placeholder gives way to the value of its name.
pub proof fn lemma_placeholders_get_their_values(a: Seq<char>, b: Seq<char>, vars: VarsView)
    requires
        plain(a),
        plain(b),
    ensures
        plain(vars.app) ==> filled_in(a + "{app}"@ + b, vars) == a + vars.app + b,
        plain(vars.message) ==> filled_in(a + "{message}"@ + b, vars) == a + vars.message + b,
        plain(vars.latency) ==> filled_in(a + "{latency}"@ + b, vars) == a + vars.latency + b,
        plain(vars.link) ==> filled_in(a + "{link}"@ + b, vars) == a + vars.link + b,
        plain(vars.mentions) ==> filled_in(a + "{mentions}"@ + b, vars) == a + vars.mentions + b,
        plain(vars.duration) ==> filled_in(a + "{duration}"@ + b, vars) == a + vars.duration + b,
{
    lemma_app_slot(a, b, vars);
    lemma_message_slot(a, b, vars);
    lemma_latency_slot(a, b, vars);
    lemma_link_slot(a, b, vars);
    lemma_mentions_slot(a, b, vars);
    lemma_duration_slot(a, b, vars);
}

proof fn lemma_app_slot(a: Seq<char>, b: Seq<char>, vars: VarsView)
    requires
        plain(a),
        plain(b),
    ensures
        plain(vars.app) ==> filled_in(a + "{app}"@ + b, vars) == a + vars.app + b,
{
    lemma_slot_names();
    let own = "{app}"@;
    if plain(vars.app) {
        lemma_own_slot(a, own, b, vars.app);
        let t = a + vars.app + b;
        lemma_plain_concat(a, vars.app, b);
        lemma_lacks(t, "{message}"@, vars.message);
        lemma_lacks(t, "{latency}"@, vars.latency);
        lemma_lacks(t, "{link}"@, vars.link);
        lemma_lacks(t, "{mentions}"@, vars.mentions);
        lemma_lacks(t, "{duration}"@, vars.duration);
        lemma_lacks(t, "( )"@, ""@);
        lemma_lacks(t, "()"@, ""@);
    }
}

proof fn lemma_message_slot(a: Seq<char>, b: Seq<char>, vars: VarsView)
    requires
        plain(a),
        plain(b),
    ensures
        plain(vars.message) ==> filled_in(a + "{message}"@ + b, vars) == a + vars.message + b,
{
    lemma_slot_names();
    let own = "{message}"@;
    if plain(vars.message) {
        lemma_another_slot(a, own, b, "{app}"@, vars.app, 1);
        lemma_own_slot(a, own, b, vars.message);
        let t = a + vars.message + b;
        lemma_plain_concat(a, vars.message, b);
        lemma_lacks(t, "{latency}"@, vars.latency);
        lemma_lacks(t, "{link}"@, vars.link);
        lemma_lacks(t, "{mentions}"@, vars.mentions);
        lemma_lacks(t, "{duration}"@, vars.duration);
        lemma_lacks(t, "( )"@, ""@);
        lemma_lacks(t, "()"@, ""@);
    }
}

proof fn lemma_latency_slot(a: Seq<char>, b: Seq<char>, vars: VarsView)
    requires
        plain(a),
        plain(b),
    ensures
        plain(vars.latency) ==> filled_in(a + "{latency}"@ + b, vars) == a + vars.latency + b,
{
    lemma_slot_names();
    let own = "{latency}"@;
    if plain(vars.latency) {
        lemma_another_slot(a, own, b, "{app}"@, vars.app, 1);
        lemma_another_slot(a, own, b, "{message}"@, vars.message, 1);
        lemma_own_slot(a, own, b, vars.latency);
        let t = a + vars.latency + b;
        lemma_plain_concat(a, vars.latency, b);
        lemma_lacks(t, "{link}"@, vars.link);
        lemma_lacks(t, "{mentions}"@, vars.mentions);
        lemma_lacks(t, "{duration}"@, vars.duration);
        lemma_lacks(t, "( )"@, ""@);
        lemma_lacks(t, "()"@, ""@);
    }
}

proof fn lemma_link_slot(a: Seq<char>, b: Seq<char>, vars: VarsView)
    requires
        plain(a),
        plain(b),
    ensures
        plain(vars.link) ==> filled_in(a + "{link}"@ + b, vars) == a + vars.link + b,
{
    lemma_slot_names();
    let own = "{link}"@;
    if plain(vars.link) {
        lemma_another_slot(a, own, b, "{app}"@, vars.app, 1);
        lemma_another_slot(a, own, b, "{message}"@, vars.message, 1);
        lemma_another_slot(a, own, b, "{latency}"@, vars.latency, 2);
        lemma_own_slot(a, own, b, vars.link);
        let t = a + vars.link + b;
        lemma_plain_concat(a, vars.link, b);
        lemma_lacks(t, "{mentions}"@, vars.mentions);
        lemma_lacks(t, "{duration}"@, vars.duration);
        lemma_lacks(t, "( )"@, ""@);
        lemma_lacks(t, "()"@, ""@);
    }
}

proof fn lemma_mentions_slot(a: Seq<char>, b: Seq<char>, vars: VarsView)
    requires
        plain(a),
        plain(b),
    ensures
        plain(vars.mentions) ==> filled_in(a + "{mentions}"@ + b, vars) == a + vars.mentions + b,
{
    lemma_slot_names();
    let own = "{mentions}"@;
    if plain(vars.mentions) {
        lemma_another_slot(a, own, b, "{app}"@, vars.app, 1);
        lemma_another_slot(a, own, b, "{message}"@, vars.message, 3);
        lemma_another_slot(a, own, b, "{latency}"@, vars.latency, 1);
        lemma_another_slot(a, own, b, "{link}"@, vars.link, 1);
        lemma_own_slot(a, own, b, vars.mentions);
        let t = a + vars.mentions + b;
        lemma_plain_concat(a, vars.mentions, b);
        lemma_lacks(t, "{duration}"@, vars.duration);
        lemma_lacks(t, "( )"@, ""@);
        lemma_lacks(t, "()"@, ""@);
    }
}

proof fn lemma_duration_slot(a: Seq<char>, b: Seq<char>, vars: VarsView)
    requires
        plain(a),
        plain(b),
    ensures
        plain(vars.duration) ==> filled_in(a + "{duration}"@ + b, vars) == a + vars.duration + b,
{
    lemma_slot_names();
    let own = "{duration}"@;
    if plain(vars.duration) {
        lemma_another_slot(a, own, b, "{app}"@, vars.app, 1);
        lemma_another_slot(a, own, b, "{message}"@, vars.message, 1);
        lemma_another_slot(a, own, b, "{latency}"@, vars.latency, 1);
        lemma_another_slot(a, own, b, "{link}"@, vars.link, 1);
        lemma_another_slot(a, own, b, "{mentions}"@, vars.mentions, 1);
        lemma_own_slot(a, own, b, vars.duration);
        let t = a + vars.duration + b;
        lemma_plain_concat(a, vars.duration, b);
        lemma_lacks(t, "( )"@, ""@);
        lemma_lacks(t, "()"@, ""@);
    }
}

/// Brackets that a missing value left empty go.
pub proof fn lemma_empty_brackets_go(a: Seq<char>, b: Seq<char>, vars: VarsView)
    requires
        plain(a),
        plain(b),
    ensures
        filled_in(a + "()"@ + b, vars) == a + b,
        filled_in(a + "( )"@ + b, vars) == a + b,
{
    lemma_slot_names();
    lemma_brackets(a, "()"@, b, vars);
    lemma_brackets(a, "( )"@, b, vars);
}

proof fn lemma_brackets(a: Seq<char>, own: Seq<char>, b: Seq<char>, vars: VarsView)
    requires
        plain(a),
        plain(b),
        own == "()"@ || own == "( )"@,
    ensures
        filled_in(a + own + b, vars) == a + b,
{
    lemma_slot_names();
    let t = a + own + b;
    assert forall|i: int| 0 <= i < t.len() implies #[trigger] t[i] != '{' && (t[i] == '(' ==> i
        == a.len()) by {
        if i < a.len() {
            assert(t[i] == a[i]);
        } else if i < a.len() + own.len() {
            assert(t[i] == own[i - a.len()]);
        } else {
            assert(t[i] == b[i - a.len() - own.len()]);
        }
    }
    lemma_lacks(t, "{app}"@, vars.app);
    lemma_lacks(t, "{message}"@, vars.message);
    lemma_lacks(t, "{latency}"@, vars.latency);
    lemma_lacks(t, "{link}"@, vars.link);
    lemma_lacks(t, "{mentions}"@, vars.mentions);
    lemma_lacks(t, "{duration}"@, vars.duration);
    if own == "()"@ {
        if contains(t, "( )"@) {
            let i = choose|i: int| occurs_at(t, "( )"@, i);
            let found = t.subrange(i, i + 3);
            assert(found[0] == t[i]);
            assert(found[1] == t[i + 1]);
            assert(t[i + 1] == own[1]);
        }
        lemma_nothing_to_replace(t, "( )"@, ""@);
        lemma_bracket_out(a, own, b);
    } else {
        lemma_bracket_out(a, own, b);
        lemma_plain_concat(a, ""@, b);
        assert(a + ""@ + b =~= a + b);
        lemma_lacks(a + b, "()"@, ""@);
    }
    assert(a + ""@ + b =~= a + b);
}

proof fn lemma_bracket_out(a: Seq<char>, own: Seq<char>, b: Seq<char>)
    requires
        plain(a),
        plain(b),
        own.len() > 0,
        own[0] == '(',
    ensures
        replace(a + own + b, own, ""@) == a + ""@ + b,
{
    let s = a + own + b;
    assert forall|i: int| 0 <= i < a.len() implies !#[trigger] occurs_at(s, own, i) by {
        if occurs_at(s, own, i) {
            assert(s.subrange(i, i + own.len())[0] == a[i]);
        }
    }
    lemma_occurrences_are_replaced(a, own, b, ""@);
    lemma_lacks(b, own, ""@);
}

/// A message has the lines of the filled template, each with one blank between its words, up to
/// the last line that has words.
pub proof fn lemma_messages_have_the_words_of_their_lines(template: Seq<char>, vars: VarsView) -> (n:
    int)
    ensures
        ({
            let all = lines(filled_in(template, vars));
            let tidy = Seq::new(all.len(), |i: int| join(words(all[i]), " "@));
            &&& 0 <= n <= all.len()
            &&& rendered(template, vars) == join(tidy.take(n), "\n"@)
            &&& n > 0 ==> tidy[n - 1].len() > 0
            &&& forall|i: int| n <= i < all.len() ==> (#[trigger] tidy[i]).len() == 0
        }),
{
    let all = lines(filled_in(template, vars));
    let tidy = Seq::new(all.len(), |i: int| join(words(all[i]), " "@));
    assert(all.map_values(|line: Seq<char>| tidy_line(line)) =~= tidy);
    lemma_blank_end_cut(tidy)
}

proof fn lemma_blank_end_cut(ls: Seq<Seq<char>>) -> (n: int)
    ensures
        0 <= n <= ls.len(),
        without_blank_end(ls) == ls.take(n),
        n > 0 ==> ls[n - 1].len() > 0,
        forall|i: int| n <= i < ls.len() ==> (#[trigger] ls[i]).len() == 0,
    decreases ls.len(),
{
    if ls.len() > 0 && ls.last().len() == 0 {
        let n = lemma_blank_end_cut(ls.drop_last());
        assert(ls.take(n) =~= ls.drop_last().take(n));
        assert forall|i: int| n <= i < ls.len() implies (#[trigger] ls[i]).len() == 0 by {
            if i < ls.len() - 1 {
                assert(ls.drop_last()[i] == ls[i]);
            }
        }
        n
    } else {
        assert(ls.take(ls.len() as int) =~= ls);
        ls.len() as int
    }
}

/// A language is named by its code, in any case and with blanks around it, and by nothing else.
pub proof fn lemma_languages_have_codes(raw: Seq<char>)
    ensures
        lang_named(raw) == Some(Lang::Es) <==> ascii_lower(trim(raw)) == "es"@,
        lang_named(raw) == Some(Lang::En) <==> ascii_lower(trim(raw)) == "en"@,
        lang_code(Lang::Es) == "es"@,
        lang_code(Lang::En) == "en"@,
        source(Lang::Es) == ES@,
        source(Lang::En) == EN@,
{
    reveal_strlit("es");
    reveal_strlit("en");
    assert("es"@[1] != "en"@[1]);
}

/// A catalog's text for a key is that of the first entry that has the key, and the key itself
/// where none has it.
pub proof fn lemma_texts_are_looked_up(i18n: I18n, key: Seq<char>)
    ensures
        ({
            let entries = i18n.entries();
            ||| (exists|i: int|
                0 <= i < entries.len() && (#[trigger] entries[i]) == (key, i18n.template(key))
                    && forall|j: int| 0 <= j < i ==> (#[trigger] entries[j]).0 != key)
            ||| i18n.template(key) == key && forall|j: int|
                0 <= j < entries.len() ==> (#[trigger] entries[j]).0 != key
        }),
{
    lemma_lookup(i18n.entries(), key);
}

proof fn lemma_lookup(entries: Seq<(Seq<char>, Seq<char>)>, key: Seq<char>)
    ensures
        match lookup(entries, key) {
            Some(value) => exists|i: int|
                0 <= i < entries.len() && (#[trigger] entries[i]) == (key, value) && forall|j: int|
                    0 <= j < i ==> (#[trigger] entries[j]).0 != key,
            None => forall|j: int| 0 <= j < entries.len() ==> (#[trigger] entries[j]).0 != key,
        },
    decreases entries.len(),
{
    if entries.len() > 0 {
        if entries[0].0 == key {
            assert(entries[0] == (key, entries[0].1));
        } else {
            let rest = entries.skip(1);
            lemma_lookup(rest, key);
            if lookup(rest, key) is Some {
                let value = lookup(rest, key)->0;
                let i = choose|i: int|
                    0 <= i < rest.len() && (#[trigger] rest[i]) == (key, value) && forall|j: int|
                        0 <= j < i ==> (#[trigger] rest[j]).0 != key;
                assert(entries[i + 1] == (key, value));
                assert forall|j: int| 0 <= j < i + 1 implies (#[trigger] entries[j]).0 != key by {
                    if j > 0 {
                        assert(rest[j - 1] == entries[j]);
                    }
                }
            } else {
                assert forall|j: int| 0 <= j < entries.len() implies (#[trigger] entries[j]).0
                    != key by {
                    if j > 0 {
                        assert(rest[j - 1] == entries[j]);
                    }
                }
            }
        }
    }
}

/// A name between braces gives way to its value; a text without braces stays as it is.
pub proof fn lemma_names_give_way_to_values(
    a: Seq<char>,
    b: Seq<char>,
    name: Seq<char>,
    value: Seq<char>,
)
    requires
        plain(a),
        plain(b),
    ensures
        filled(a + seq!['{'] + name + seq!['}'] + b, seq![(name, value)]) == a + value + b,
        filled(a, seq![(name, value)]) == a,
        filled(a, Seq::empty()) == a,
{
    let own = seq!['{'] + name + seq!['}'];
    assert(own == braced(name));
    assert(a + seq!['{'] + name + seq!['}'] + b =~= a + own + b);
    lemma_own_slot(a, own, b, value);
    lemma_lacks(a, own, value);
    let args = seq![(name, value)];
    assert(args.drop_last() =~= Seq::<(Seq<char>, Seq<char>)>::empty());
    assert(filled(a + own + b, args.drop_last()) == a + own + b);
    assert(filled(a, args.drop_last()) == a);
}

/// The values of a text are filled in one after the other.
pub proof fn lemma_values_are_filled_in_turn(
    text: Seq<char>,
    args: Seq<(Seq<char>, Seq<char>)>,
    arg: (Seq<char>, Seq<char>),
)
    ensures
        filled(text, args.push(arg)) == filled(filled(text, args), seq![arg]),
{
    assert(args.push(arg).drop_last() =~= args);
    assert(seq![arg].drop_last() =~= Seq::<(Seq<char>, Seq<char>)>::empty());
    assert(filled(filled(text, args), seq![arg].drop_last()) == filled(text, args));
}

/// What is said of a URL that may not be requested: what is wrong with it.
pub proof fn lemma_refused_urls_are_explained(e: OutboundError, i18n: I18n)
    ensures
        e matches OutboundError::InvalidUrl(error) ==> e.localized(&i18n) == i18n.message(
            "outbound.invalid_url"@,
            seq![("error"@, error@)],
        ),
        e is NotHttps ==> e.localized(&i18n) == i18n.template("outbound.not_https"@),
        e matches OutboundError::HostNotAllowed(host) ==> e.localized(&i18n) == i18n.message(
            "outbound.host_not_allowed"@,
            seq![("host"@, host@)],
        ),
        e is MissingPort ==> e.localized(&i18n) == i18n.template("outbound.missing_port"@),
{
}

/// What is said of a bundle that doesn't load: its path, and its status, its type or the error.
pub proof fn lemma_broken_bundles_are_explained(e: BundleProblem, i18n: I18n)
    ensures
        e matches BundleProblem::Status { path, status } ==> e.localized(&i18n) == i18n.message(
            "check.bundle_status"@,
            seq![("path"@, path@), ("status"@, decimal(status as nat))],
        ),
        e matches BundleProblem::WrongType { path, content_type } ==> match content_type {
            Some(ct) => e.localized(&i18n) == i18n.message(
                "check.bundle_type"@,
                seq![("path"@, path@), ("type"@, ct@)],
            ),
            None => e.localized(&i18n) == i18n.message(
                "check.bundle_no_type"@,
                seq![("path"@, path@)],
            ),
        },
        e matches BundleProblem::Unreachable { path, error } ==> e.localized(&i18n) == i18n.message(
            "check.bundle_unreachable"@,
            seq![("path"@, path@), ("error"@, error@)],
        ),
{
}

/// The text of a key filled with values is its catalog text filled with them.
pub proof fn lemma_messages_are_filled_texts(
    i18n: I18n,
    key: Seq<char>,
    args: Seq<(Seq<char>, Seq<char>)>,
)
    ensures
        i18n.message(key, args) == filled(i18n.template(key), args),
        i18n.message(key, Seq::empty()) == i18n.template(key),
{
}

} // verus!
