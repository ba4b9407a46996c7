//! Bundle check for single-page apps. An SPA's server answers 200 with the same `index.html`
//! for every path -- often even for a missing `/assets/index-abc.js`, which then arrives as
//! HTML. So a broken deploy (a bundle that never uploaded, a stale hash) still looks "up" to a
//! plain health check while users get a blank page. This reads the page's `<script src>` /
//! `<link rel="stylesheet|modulepreload">` references and checks that each one really loads as
//! JS or CSS.

use vstd::prelude::*;

use crate::i18n::I18n;
use crate::i18n::Localize;
use crate::outbound::Outbound;
use crate::text::ascii_lower;
use crate::text::ascii_white;
use crate::text::chars_of;
use crate::text::contains;
use crate::text::decimal;
use crate::text::decimal_text;
use crate::text::find_from;
use crate::text::has_text;
use crate::text::is_ascii_white;
use crate::text::is_listed;
use crate::text::lemma_listed_contains;
use crate::text::lemma_views_push;
use crate::text::lower_char;
use crate::text::occurs_at;
use crate::text::pieces;
use crate::text::same;
use crate::text::split;
use crate::text::text_between;
use crate::text::to_ascii_lower;
use crate::text::trim;
use crate::text::trimmed;
use crate::text::views;
use crate::text::words;
use crate::text::words_of;
use crate::weburl::join_url;
use crate::weburl::joined_url;
use crate::weburl::opt_view;
use crate::weburl::Url;
use crate::weburl::UrlView;

verus! {

/// Most bundles checked per page; a typical Vite/webpack page has a handful.
pub const MAX_BUNDLES: usize = 12;

#[derive(Debug, Clone, Copy, PartialEq, Eq, Structural)]
pub enum BundleKind {
    Script,
    Stylesheet,
}

#[derive(Debug, PartialEq, Eq)]
pub struct Bundle {
    pub url: Url,
    pub kind: BundleKind,
}

/// The first index at or after `from` where `p` stands in `s`.
pub open spec fn first_at(s: Seq<char>, p: Seq<char>, from: int) -> Option<int>
    decreases s.len() - from,
{
    if from + p.len() > s.len() || from >= s.len() {
        None
    } else if occurs_at(s, p, from) {
        Some(from)
    } else {
        first_at(s, p, from + 1)
    }
}

proof fn lemma_first_at(s: Seq<char>, p: Seq<char>, from: int, i: int)
    requires
        0 <= from <= i,
        p.len() > 0,
        forall|j: int| from <= j < i ==> !occurs_at(s, p, j),
        occurs_at(s, p, i),
    ensures
        first_at(s, p, from) == Some(i),
    decreases i - from,
{
    if from < i {
        assert(!occurs_at(s, p, from));
        lemma_first_at(s, p, from + 1, i);
    }
}

proof fn lemma_never_at(s: Seq<char>, p: Seq<char>, from: int)
    requires
        0 <= from,
        forall|j: int| from <= j ==> !occurs_at(s, p, j),
    ensures
        first_at(s, p, from) is None,
    decreases s.len() - from,
{
    if from + p.len() <= s.len() && from < s.len() {
        assert(!occurs_at(s, p, from));
        lemma_never_at(s, p, from + 1);
    }
}

/// Where `first_at` points: at or after `from`, with room for `p`.
pub proof fn lemma_first_at_bounds(s: Seq<char>, p: Seq<char>, from: int)
    requires
        0 <= from,
    ensures
        first_at(s, p, from) matches Some(i) ==> from <= i && i + p.len() <= s.len() && i < s.len(),
    decreases s.len() - from,
{
    if from + p.len() <= s.len() && from < s.len() && !occurs_at(s, p, from) {
        lemma_first_at_bounds(s, p, from + 1);
    }
}

fn find(s: &Vec<char>, p: &Vec<char>, from: usize) -> (r: Option<usize>)
    requires
        from <= s@.len(),
        p@.len() > 0,
    ensures
        match r {
            Some(i) => first_at(s@, p@, from as int) == Some(i as int) && from <= i && i + p@.len()
                <= s@.len(),
            None => first_at(s@, p@, from as int) is None,
        },
{
    match find_from(s, p, from) {
        Some(i) => {
            proof {
                lemma_first_at(s@, p@, from as int, i as int);
            }
            Some(i)
        },
        None => {
            proof {
                lemma_never_at(s@, p@, from as int);
            }
            None
        },
    }
}

/// Whether a tag's name may end before this character: `<scriptx` isn't a `<script>` tag.
pub open spec fn ends_name(c: char) -> bool {
    is_ascii_white(c) || c == '>' || c == '/'
}

/// The insides of the tags that `open` begins, from index `from` on.
pub open spec fn tags_from(html: Seq<char>, open: Seq<char>, from: int) -> Seq<Seq<char>>
    decreases html.len() - from,
    when 0 <= from && open.len() > 0
{
    let lower = ascii_lower(html);
    match first_at(lower, open, from) {
        None => Seq::empty(),
        Some(pos) => {
            proof {
                lemma_first_at_bounds(lower, open, from);
            }
            let start = pos + open.len();
            if start == html.len() || !ends_name(lower[start]) {
                tags_from(html, open, start)
            } else {
                match first_at(lower, seq!['>'], start) {
                    None => Seq::empty(),
                    Some(end) => {
                        proof {
                            lemma_first_at_bounds(lower, seq!['>'], start);
                        }
                        seq![html.subrange(start, end)] + tags_from(html, open, end)
                    },
                }
            }
        },
    }
}

/// The inside of every `<name ...>` tag (ASCII case-insensitive), without the brackets.
pub open spec fn tags_named(html: Seq<char>, name: Seq<char>) -> Seq<Seq<char>> {
    tags_from(html, seq!['<'] + name, 0)
}

fn lowered(v: &Vec<char>) -> (r: Vec<char>)
    ensures
        r@ == ascii_lower(v@),
{
    let mut out: Vec<char> = Vec::new();
    let mut i: usize = 0;
    while i < v.len()
        invariant
            i <= v@.len(),
            out@.len() == i,
            forall|j: int| 0 <= j < i ==> #[trigger] out@[j] == crate::text::lower(v@[j]),
        decreases v@.len() - i,
    {
        out.push(lower_char(v[i]));
        i += 1;
    }
    proof {
        assert(out@ =~= ascii_lower(v@));
    }
    out
}

/// The inside of every `<name ...>` tag (ASCII case-insensitive), without the brackets.
pub fn tags(html: &str, name: &str) -> (r: Vec<String>)
    ensures
        views(r@) == tags_named(html@, name@),
{
    let v = chars_of(html);
    let lower = lowered(&v);
    let mut open_text = "<".to_owned();
    open_text.append(name);
    let open = chars_of(open_text.as_str());
    let mut gt: Vec<char> = Vec::new();
    gt.push('>');
    proof {
        reveal_strlit("<");
        assert(open@ =~= seq!['<'] + name@);
        assert(gt@ =~= seq!['>']);
    }
    let ghost all = tags_from(html@, open@, 0);
    let mut out: Vec<String> = Vec::new();
    let mut from: usize = 0;
    proof {
        assert(views(out@) + all =~= all);
    }
    loop
        invariant
            from <= v@.len(),
            v@ == html@,
            lower@ == ascii_lower(v@),
            lower@.len() == v.len(),
            open@.len() > 0,
            gt@ == seq!['>'],
            all == tags_from(html@, open@, 0),
            views(out@) + tags_from(html@, open@, from as int) == all,
        ensures
            views(out@) == all,
        decreases v@.len() - from,
    {
        match find(&lower, &open, from) {
            None => {
                proof {
                    assert(views(out@) + Seq::<Seq<char>>::empty() =~= views(out@));
                }
                break ;
            },
            Some(pos) => {
                let start: usize = pos + open.len();
                if start == v.len() || !(ascii_white(lower[start]) || lower[start] == '>'
                    || lower[start] == '/') {
                    from = start;
                } else {
                    match find(&lower, &gt, start) {
                        None => {
                            proof {
                                assert(views(out@) + Seq::<Seq<char>>::empty() =~= views(out@));
                            }
                            break ;
                        },
                        Some(end) => {
                            let tag = text_between(&v, start, end);
                            proof {
                                let rest = tags_from(html@, open@, end as int);
                                lemma_views_push(out@, tag);
                                assert(views(out@) + (seq![tag@] + rest) =~= views(out@).push(tag@)
                                    + rest);
                            }
                            out.push(tag);
                            from = end;
                        },
                    }
                }
            },
        }
    }
    out
}

/// What stands before the first white space of a text.
pub open spec fn bare_value(s: Seq<char>) -> Seq<char>
    decreases s.len(),
{
    if s.len() == 0 || is_ascii_white(s[0]) {
        Seq::empty()
    } else {
        seq![s[0]] + bare_value(s.skip(1))
    }
}

/// A bare value at the beginning of a text: up to the first white space, without the slash that
/// closes the tag where the value is the last thing in it.
pub open spec fn bare_at(rest: Seq<char>) -> Seq<char> {
    let value = bare_value(rest);
    if value.len() == rest.len() && value.len() > 0 && value.last() == '/' {
        value.drop_last()
    } else {
        value
    }
}

/// An attribute's value at the beginning of a text: quoted with `"` or `'`, or bare.
pub open spec fn value_at(rest: Seq<char>) -> Option<Seq<char>> {
    if rest.len() == 0 {
        None
    } else if rest[0] == '"' || rest[0] == '\'' {
        match first_at(rest, seq![rest[0]], 1) {
            Some(end) => Some(rest.subrange(1, end)),
            None => None,
        }
    } else {
        Some(bare_at(rest))
    }
}

/// The value behind the first `needle` at or after `from` that is a whole name.
pub open spec fn attr_from(tag: Seq<char>, needle: Seq<char>, from: int) -> Option<Seq<char>>
    decreases tag.len() - from,
    when 0 <= from && needle.len() > 0
{
    let lower = ascii_lower(tag);
    match first_at(lower, needle, from) {
        None => None,
        Some(at) => {
            proof {
                lemma_first_at_bounds(lower, needle, from);
            }
            let next = at + needle.len();
            if at == 0 || is_ascii_white(lower[at - 1]) {
                value_at(tag.skip(next))
            } else {
                attr_from(tag, needle, next)
            }
        },
    }
}

/// Value of attribute `name` in a tag's inside.
pub open spec fn attr_named(tag: Seq<char>, name: Seq<char>) -> Option<Seq<char>> {
    attr_from(tag, name + seq!['='], 0)
}

fn value_of(v: &Vec<char>, from: usize) -> (r: Option<String>)
    requires
        from <= v@.len(),
    ensures
        opt_view(r) == value_at(v@.skip(from as int)),
{
    let ghost rest = v@.skip(from as int);
    if from == v.len() {
        return None;
    }
    let q = v[from];
    let tail = {
        let mut t: Vec<char> = Vec::new();
        let mut k: usize = from;
        while k < v.len()
            invariant
                from <= k <= v@.len(),
                t@ == v@.subrange(from as int, k as int),
            decreases v@.len() - k,
        {
            t.push(v[k]);
            k += 1;
            proof {
                assert(v@.subrange(from as int, k as int) =~= v@.subrange(
                    from as int,
                    k as int - 1,
                ).push(v@[k as int - 1]));
            }
        }
        proof {
            assert(v@.subrange(from as int, v@.len() as int) =~= rest);
        }
        t
    };
    if q == '"' || q == '\'' {
        let mut quote: Vec<char> = Vec::new();
        quote.push(q);
        proof {
            assert(quote@ =~= seq![rest[0]]);
        }
        match find(&tail, &quote, 1) {
            Some(end) => Some(text_between(&tail, 1, end)),
            None => None,
        }
    } else {
        let mut i: usize = 0;
        proof {
            assert(tail@.skip(0) =~= tail@);
            assert(tail@.take(0) + bare_value(tail@) =~= bare_value(tail@));
        }
        while i < tail.len() && !ascii_white(tail[i])
            invariant
                i <= tail@.len(),
                tail@.take(i as int) + bare_value(tail@.skip(i as int)) == bare_value(tail@),
            decreases tail@.len() - i,
        {
            proof {
                let s = tail@.skip(i as int);
                assert(s.skip(1) =~= tail@.skip(i as int + 1));
                assert(tail@.take(i as int) + (seq![s[0]] + bare_value(tail@.skip(i as int + 1)))
                    =~= tail@.take(i as int + 1) + bare_value(tail@.skip(i as int + 1)));
            }
            i += 1;
        }
        proof {
            assert(bare_value(tail@.skip(i as int)) =~= Seq::<char>::empty());
            assert(tail@.take(i as int) + Seq::<char>::empty() =~= tail@.subrange(0, i as int));
        }
        if i == tail.len() && i > 0 && tail[i - 1] == '/' {
            proof {
                assert(tail@.subrange(0, i as int).drop_last() =~= tail@.subrange(0, i as int - 1));
            }
            Some(text_between(&tail, 0, i - 1))
        } else {
            Some(text_between(&tail, 0, i))
        }
    }
}

/// Value of attribute `name` in a tag's inside: quoted with `"`/`'`, or bare.
pub fn attr(tag: &str, name: &str) -> (r: Option<String>)
    ensures
        opt_view(r) == attr_named(tag@, name@),
{
    let v = chars_of(tag);
    let lower = lowered(&v);
    let mut needle_text = name.to_owned();
    needle_text.append("=");
    let needle = chars_of(needle_text.as_str());
    proof {
        reveal_strlit("=");
        assert(needle@ =~= name@ + seq!['=']);
    }
    let mut from: usize = 0;
    loop
        invariant
            from <= v@.len(),
            v@ == tag@,
            lower@ == ascii_lower(v@),
            lower@.len() == v.len(),
            needle@.len() > 0,
            needle@ == name@ + seq!['='],
            attr_from(tag@, needle@, from as int) == attr_named(tag@, name@),
        decreases v@.len() - from,
    {
        match find(&lower, &needle, from) {
            None => {
                return None;
            },
            Some(at) => {
                let next: usize = at + needle.len();
                if at == 0 || ascii_white(lower[at - 1]) {
                    return value_of(&v, next);
                }
                from = next;
            },
        }
    }
}

/// The kind of bundle that a `<link>`'s `rel` names, if it names one.
pub open spec fn link_kind(rel: Seq<char>) -> Option<BundleKind> {
    if words(rel).contains("stylesheet"@) {
        Some(BundleKind::Stylesheet)
    } else if words(rel).contains("modulepreload"@) {
        Some(BundleKind::Script)
    } else {
        None
    }
}

/// The references of `<script>` tags.
pub open spec fn script_refs(tags: Seq<Seq<char>>) -> Seq<(Seq<char>, BundleKind)>
    decreases tags.len(),
{
    if tags.len() == 0 {
        Seq::empty()
    } else {
        let before = script_refs(tags.drop_last());
        match attr_named(tags.last(), "src"@) {
            Some(src) => before.push((src, BundleKind::Script)),
            None => before,
        }
    }
}

/// What a `<link>` tag's `rel` says, in lower case; nothing where it has none.
pub open spec fn rel_of(tag: Seq<char>) -> Seq<char> {
    match attr_named(tag, "rel"@) {
        Some(rel) => ascii_lower(rel),
        None => ascii_lower(Seq::empty()),
    }
}

/// The references of `<link>` tags that load a script or a stylesheet.
pub open spec fn link_refs(tags: Seq<Seq<char>>) -> Seq<(Seq<char>, BundleKind)>
    decreases tags.len(),
{
    if tags.len() == 0 {
        Seq::empty()
    } else {
        let before = link_refs(tags.drop_last());
        match (link_kind(rel_of(tags.last())), attr_named(tags.last(), "href"@)) {
            (Some(kind), Some(href)) => before.push((href, kind)),
            _ => before,
        }
    }
}

/// Every reference of a page: its scripts', then its links'.
pub open spec fn page_refs(html: Seq<char>) -> Seq<(Seq<char>, BundleKind)> {
    script_refs(tags_named(html, "script"@)) + link_refs(tags_named(html, "link"@))
}

/// Whether a bundle is already listed.
pub open spec fn has_bundle(found: Seq<(UrlView, BundleKind)>, text: Seq<char>) -> bool {
    exists|i: int| 0 <= i < found.len() && (#[trigger] found[i]).0.text == text
}

/// The bundles that references on the page at `base` load: http(s) alone, each once, and no
/// more than the first twelve.
pub open spec fn bundles_of(refs: Seq<(Seq<char>, BundleKind)>, base: Seq<char>) -> Seq<
    (UrlView, BundleKind),
>
    decreases refs.len(),
{
    if refs.len() == 0 {
        Seq::empty()
    } else {
        let before = bundles_of(refs.drop_last(), base);
        match joined_url(base, trim(refs.last().0)) {
            Some(url) => if before.len() < MAX_BUNDLES && (url.scheme == "http"@ || url.scheme
                == "https"@) && !has_bundle(before, url.text) {
                before.push((url, refs.last().1))
            } else {
                before
            },
            None => before,
        }
    }
}

pub open spec fn bundle_views(v: Seq<Bundle>) -> Seq<(UrlView, BundleKind)> {
    v.map_values(|b: Bundle| (b.url@, b.kind))
}

pub open spec fn ref_views(v: Seq<(String, BundleKind)>) -> Seq<(Seq<char>, BundleKind)> {
    v.map_values(|p: (String, BundleKind)| (p.0@, p.1))
}

proof fn lemma_ref_views_push(v: Seq<(String, BundleKind)>, p: (String, BundleKind))
    ensures
        ref_views(v.push(p)) == ref_views(v).push((p.0@, p.1)),
{
    assert(ref_views(v.push(p)) =~= ref_views(v).push((p.0@, p.1)));
}

fn kind_of_link(rel: &str) -> (r: Option<BundleKind>)
    ensures
        r == link_kind(rel@),
{
    let parts = words_of(rel);
    proof {
        lemma_listed_contains(parts@, "stylesheet"@);
        lemma_listed_contains(parts@, "modulepreload"@);
    }
    if is_listed(&parts, "stylesheet") {
        Some(BundleKind::Stylesheet)
    } else if is_listed(&parts, "modulepreload") {
        Some(BundleKind::Script)
    } else {
        None
    }
}

fn references(html: &str) -> (r: Vec<(String, BundleKind)>)
    ensures
        ref_views(r@) == page_refs(html@),
{
    let scripts = tags(html, "script");
    let links = tags(html, "link");
    let ghost all = views(scripts@);
    let ghost more = views(links@);
    let mut out: Vec<(String, BundleKind)> = Vec::new();
    let mut i: usize = 0;
    proof {
        assert(all.take(0) =~= Seq::<Seq<char>>::empty());
        assert(ref_views(out@) =~= script_refs(all.take(0)));
    }
    while i < scripts.len()
        invariant
            i <= scripts@.len(),
            all == views(scripts@),
            ref_views(out@) == script_refs(all.take(i as int)),
        decreases scripts@.len() - i,
    {
        proof {
            assert(all.take(i as int + 1).drop_last() =~= all.take(i as int));
            assert(all.take(i as int + 1).last() == scripts@[i as int]@);
        }
        if let Some(src) = attr(scripts[i].as_str(), "src") {
            proof {
                lemma_ref_views_push(out@, (src, BundleKind::Script));
            }
            out.push((src, BundleKind::Script));
        }
        i += 1;
    }
    let ghost first = ref_views(out@);
    proof {
        assert(all.take(all.len() as int) =~= all);
        assert(more.take(0) =~= Seq::<Seq<char>>::empty());
        assert(first + link_refs(more.take(0)) =~= first);
    }
    let mut k: usize = 0;
    while k < links.len()
        invariant
            k <= links@.len(),
            more == views(links@),
            ref_views(out@) == first + link_refs(more.take(k as int)),
        decreases links@.len() - k,
    {
        proof {
            assert(more.take(k as int + 1).drop_last() =~= more.take(k as int));
            assert(more.take(k as int + 1).last() == links@[k as int]@);
        }
        let tag = links[k].as_str();
        let rel = match attr(tag, "rel") {
            Some(raw) => to_ascii_lower(raw.as_str()),
            None => {
                let none = String::new();
                to_ascii_lower(none.as_str())
            },
        };
        let kind = kind_of_link(rel.as_str());
        let href = attr(tag, "href");
        let ghost before = link_refs(more.take(k as int));
        if let Some(kind) = kind {
            if let Some(href) = href {
                proof {
                    lemma_ref_views_push(out@, (href, kind));
                    assert((first + before).push((href@, kind)) =~= first + before.push(
                        (href@, kind),
                    ));
                }
                out.push((href, kind));
            }
        }
        k += 1;
    }
    proof {
        assert(more.take(more.len() as int) =~= more);
    }
    out
}

fn any_bundle(found: &Vec<Bundle>, text: &str) -> (r: bool)
    ensures
        r == has_bundle(bundle_views(found@), text@),
{
    let mut i: usize = 0;
    while i < found.len()
        invariant
            i <= found@.len(),
            forall|j: int| 0 <= j < i ==> (#[trigger] found@[j]).url.text@ != text@,
        decreases found@.len() - i,
    {
        if same(found[i].url.text.as_str(), text) {
            proof {
                assert(bundle_views(found@)[i as int].0.text == text@);
            }
            return true;
        }
        i += 1;
    }
    proof {
        assert forall|j: int| 0 <= j < bundle_views(found@).len() implies (#[trigger] bundle_views(
            found@,
        )[j]).0.text != text@ by {
            assert(bundle_views(found@)[j].0 == found@[j].url@);
        }
    }
    false
}

/// The JS/CSS bundles `html` references, resolved against `base` (the page's URL).
#[must_use]
pub fn extract(html: &str, base: &Url) -> (r: Vec<Bundle>)
    ensures
        bundle_views(r@) == bundles_of(page_refs(html@), base@.text),
{
    let refs = references(html);
    let ghost all = ref_views(refs@);
    let mut found: Vec<Bundle> = Vec::new();
    let mut i: usize = 0;
    proof {
        assert(all.take(0) =~= Seq::<(Seq<char>, BundleKind)>::empty());
        assert(bundle_views(found@) =~= bundles_of(all.take(0), base@.text));
    }
    while i < refs.len()
        invariant
            i <= refs@.len(),
            all == ref_views(refs@),
            bundle_views(found@) == bundles_of(all.take(i as int), base@.text),
        decreases refs@.len() - i,
    {
        proof {
            assert(all.take(i as int + 1).drop_last() =~= all.take(i as int));
            assert(all.take(i as int + 1).last() == all[i as int]);
        }
        let reference = trimmed(refs[i].0.as_str());
        let kind = refs[i].1;
        if let Some(url) = join_url(base.text.as_str(), reference.as_str()) {
            let web = same(url.scheme.as_str(), "http") || same(url.scheme.as_str(), "https");
            if found.len() < MAX_BUNDLES && web && !any_bundle(&found, url.text.as_str()) {
                let bundle = Bundle { url, kind };
                let ghost before = found@;
                found.push(bundle);
                proof {
                    assert(bundle_views(found@) =~= bundle_views(before).push(
                        (bundle.url@, bundle.kind),
                    ));
                }
            }
        }
        i += 1;
    }
    proof {
        assert(all.take(all.len() as int) =~= all);
    }
    found
}

/// Why a bundle isn't the JS/CSS it should be. It becomes the check's message, in the UI's
/// language.
#[derive(Debug, PartialEq, Eq)]
pub enum BundleProblem {
    Status { path: String, status: u16 },
    /// `content_type` is `None` when the response had none.
    WrongType { path: String, content_type: Option<String> },
    Unreachable { path: String, error: String },
}

impl Localize for BundleProblem {
    open spec fn localized(&self, i18n: &I18n) -> Seq<char> {
        match self {
            BundleProblem::Status { path, status } => i18n.message(
                "check.bundle_status"@,
                seq![("path"@, path@), ("status"@, decimal(*status as nat))],
            ),
            BundleProblem::WrongType { path, content_type: Some(ct) } => i18n.message(
                "check.bundle_type"@,
                seq![("path"@, path@), ("type"@, ct@)],
            ),
            BundleProblem::WrongType { path, content_type: None } => i18n.message(
                "check.bundle_no_type"@,
                seq![("path"@, path@)],
            ),
            BundleProblem::Unreachable { path, error } => i18n.message(
                "check.bundle_unreachable"@,
                seq![("path"@, path@), ("error"@, error@)],
            ),
        }
    }

    fn localize(&self, i18n: &I18n) -> (r: String) {
        match self {
            BundleProblem::Status { path, status } => {
                let text = decimal_text(*status as u64);
                i18n.line2(
                    "check.bundle_status",
                    ("path", path.as_str()),
                    ("status", text.as_str()),
                )
            },
            BundleProblem::WrongType { path, content_type } => match content_type {
                Some(ct) => i18n.line2(
                    "check.bundle_type",
                    ("path", path.as_str()),
                    ("type", ct.as_str()),
                ),
                None => i18n.line1("check.bundle_no_type", "path", path.as_str()),
            },
            BundleProblem::Unreachable { path, error } => i18n.line2(
                "check.bundle_unreachable",
                ("path", path.as_str()),
                ("error", error.as_str()),
            ),
        }
    }
}

/// Whether a content type (in lower case) is what a bundle should have.
pub open spec fn right_type(kind: BundleKind, ct: Seq<char>) -> bool {
    match kind {
        BundleKind::Script => contains(ct, "javascript"@) || contains(ct, "ecmascript"@),
        BundleKind::Stylesheet => contains(ct, "text/css"@),
    }
}

/// Why a bundle response isn't the JS/CSS it should be, or `None` if it's fine.
#[must_use]
pub fn problem(bundle: &Bundle, status: u16, content_type: &str) -> (r: Option<BundleProblem>)
    ensures
        ({
            let ct = ascii_lower(content_type@);
            let kind = trim(split(ct, ';')[0]);
            if !(200 <= status < 300) {
                r matches Some(BundleProblem::Status { path, status: s }) && path@
                    == bundle.url@.path && s == status
            } else if right_type(bundle.kind, ct) {
                r is None
            } else {
                r matches Some(BundleProblem::WrongType { path, content_type: t }) && path@
                    == bundle.url@.path && opt_view(t) == if kind.len() == 0 {
                    None
                } else {
                    Some(kind)
                }
            }
        }),
{
    let path = bundle.url.path.clone();
    if !(200 <= status && status < 300) {
        return Some(BundleProblem::Status { path, status });
    }
    let ct = to_ascii_lower(content_type);
    let ok = match bundle.kind {
        BundleKind::Script => has_text(ct.as_str(), "javascript") || has_text(
            ct.as_str(),
            "ecmascript",
        ),
        BundleKind::Stylesheet => has_text(ct.as_str(), "text/css"),
    };
    if ok {
        return None;
    }
    let parts = pieces(ct.as_str(), ';');
    proof {
        assert(views(parts@)[0] == parts@[0]@);
    }
    let got = trimmed(parts[0].as_str());
    let content_type = if got.as_str().is_empty() {
        None
    } else {
        Some(got)
    };
    Some(BundleProblem::WrongType { path, content_type })
}

/// What the reply to a bundle's request shows.
#[derive(Debug)]
pub enum BundleReply {
    /// The status, and the content type (empty where the response had none).
    Answered { status: u16, content_type: String },
    Failed { error: String },
}

/// Whether a bundle can be requested at all: one on a host outside `ALLOWED_HOSTS` (e.g. a
/// third-party CDN) is skipped.
pub fn requestable(outbound: &Outbound, bundle: &Bundle) -> (r: Option<Url>)
    ensures
        match crate::weburl::parsed_url(trim(bundle.url@.text)) {
            Ok(url) => if url.scheme == "https"@ && outbound.allows(
                crate::outbound::policy_host(url),
            ) {
                r is Some && r->0@ == url
            } else {
                r is None
            },
            Err(_) => r is None,
        },
{
    match outbound.check(bundle.url.text.as_str()) {
        Ok(url) => Some(url),
        Err(_) => None,
    }
}

/// What is wrong with a bundle that was requested, if anything.
pub fn reply_problem(bundle: &Bundle, reply: BundleReply) -> (r: Option<BundleProblem>)
    ensures
        match reply {
            BundleReply::Failed { error } => r matches Some(
                BundleProblem::Unreachable { path, error: e },
            ) && path@ == bundle.url@.path && e == error,
            BundleReply::Answered { status, content_type } => {
                let ct = ascii_lower(content_type@);
                let kind = trim(split(ct, ';')[0]);
                if !(200 <= status < 300) {
                    r matches Some(BundleProblem::Status { path, status: s }) && path@
                        == bundle.url@.path && s == status
                } else if right_type(bundle.kind, ct) {
                    r is None
                } else {
                    r matches Some(BundleProblem::WrongType { path, content_type: t }) && path@
                        == bundle.url@.path && opt_view(t) == if kind.len() == 0 {
                        None
                    } else {
                        Some(kind)
                    }
                }
            },
        },
{
    match reply {
        BundleReply::Failed { error } => Some(
            BundleProblem::Unreachable { path: bundle.url.path.clone(), error },
        ),
        BundleReply::Answered { status, content_type } => problem(
            bundle,
            status,
            content_type.as_str(),
        ),
    }
}

// ---------------------------------------------------------------------------------------
// What holds of every page
// ---------------------------------------------------------------------------------------

/// A page's bundles are at most twelve, all on the web, and none of them twice.
pub proof fn lemma_bundles_are_few_and_distinct(
    refs: Seq<(Seq<char>, BundleKind)>,
    base: Seq<char>,
)
    ensures
        bundles_of(refs, base).len() <= MAX_BUNDLES,
        forall|i: int|
            0 <= i < bundles_of(refs, base).len() ==> (#[trigger] bundles_of(
                refs,
                base,
            )[i]).0.scheme == "http"@ || bundles_of(refs, base)[i].0.scheme == "https"@,
        forall|i: int, j: int|
            0 <= i < j < bundles_of(refs, base).len() ==> (#[trigger] bundles_of(
                refs,
                base,
            )[i]).0.text != (#[trigger] bundles_of(refs, base)[j]).0.text,
    decreases refs.len(),
{
    if refs.len() > 0 {
        lemma_bundles_are_few_and_distinct(refs.drop_last(), base);
    }
}

} // verus!
