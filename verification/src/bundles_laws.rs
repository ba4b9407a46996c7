//! What holds of every page: which tags and attributes are read, and which bundles it loads.

use vstd::prelude::*;

use crate::bundles::attr_from;
use crate::bundles::attr_named;
use crate::bundles::bare_value;
use crate::bundles::bundles_of;
use crate::bundles::first_at;
use crate::bundles::has_bundle;
use crate::bundles::link_kind;
use crate::bundles::link_refs;
use crate::bundles::page_refs;
use crate::bundles::right_type;
use crate::bundles::script_refs;
use crate::bundles::tags_from;
use crate::bundles::tags_named;
use crate::bundles::value_at;
use crate::bundles::BundleKind;
use crate::text::ascii_lower;
use crate::text::contains;
use crate::text::is_ascii_white;
use crate::text::lower;
use crate::text::occurs_at;
use crate::text::trim;
use crate::text::words;
use crate::weburl::joined_url;

verus! {

/// What is looked for is found where it first stands, from the given place on.
pub proof fn lemma_first_places_are_found(s: Seq<char>, p: Seq<char>, from: int)
    requires
        0 <= from,
        p.len() > 0,
    ensures
        match first_at(s, p, from) {
            Some(i) => from <= i && occurs_at(s, p, i) && forall|j: int|
                from <= j < i ==> !#[trigger] occurs_at(s, p, j),
            None => forall|j: int| from <= j ==> !#[trigger] occurs_at(s, p, j),
        },
    decreases s.len() - from,
{
    if from + p.len() > s.len() || from >= s.len() {
        assert forall|j: int| from <= j implies !#[trigger] occurs_at(s, p, j) by {}
    } else if !occurs_at(s, p, from) {
        lemma_first_places_are_found(s, p, from + 1);
    }
}

/// The first tag of a name begins where `<` and the name first stand, in any case, with white
/// space, `>` or `/` behind it; its inside goes up to the next `>`, and the search goes on there.
/// A longer name is passed over.
pub proof fn lemma_tags_are_found(html: Seq<char>, open: Seq<char>, from: int, pos: int, end: int)
    requires
        open.len() > 0,
        0 <= from <= pos,
        occurs_at(ascii_lower(html), open, pos),
        forall|j: int| from <= j < pos ==> !#[trigger] occurs_at(ascii_lower(html), open, j),
    ensures
        ({
            let start = pos + open.len();
            let behind = start < html.len() && {
                let c = html[start];
                c == ' ' || c == '\t' || c == '\n' || c == '\r' || c == '\x0c' || c == '>' || c
                    == '/'
            };
            &&& !behind ==> tags_from(html, open, from) == tags_from(html, open, start)
            &&& behind && start <= end < html.len() && html[end] == '>' && (forall|j: int|
                start <= j < end ==> #[trigger] html[j] != '>') ==> tags_from(html, open, from)
                == seq![html.subrange(start, end)] + tags_from(html, open, end)
            &&& behind && (forall|j: int| start <= j < html.len() ==> #[trigger] html[j] != '>')
                ==> tags_from(html, open, from).len() == 0
        }),
{
    let small = ascii_lower(html);
    let start = pos + open.len();
    lemma_first_places_are_found(small, open, from);
    assert(first_at(small, open, from) == Some(pos));
    assert(small.len() == html.len());
    if start < html.len() {
        assert(small[start] == lower(html[start]));
        lemma_first_places_are_found(small, seq!['>'], start);
        assert forall|j: int| start <= j < html.len() implies (#[trigger] html[j] == '>') == occurs_at(
            small,
            seq!['>'],
            j,
        ) by {
            assert(small[j] == lower(html[j]));
            assert(small.subrange(j, j + 1) =~= seq![small[j]]);
            assert(seq![small[j]][0] == small[j]);
            assert(seq!['>'][0] == '>');
        }
        if first_at(small, seq!['>'], start) is Some {
            let i = first_at(small, seq!['>'], start)->0;
            assert(html[i] == '>');
            if start <= end < html.len() && html[end] == '>' {
                assert(occurs_at(small, seq!['>'], end));
                if forall|j: int| start <= j < end ==> #[trigger] html[j] != '>' {
                    assert(i == end);
                }
            }
        } else if start <= end < html.len() && html[end] == '>' {
            assert(occurs_at(small, seq!['>'], end));
        }
    }
}

/// Without the name there are no tags.
pub proof fn lemma_no_name_no_tags(html: Seq<char>, name: Seq<char>)
    requires
        !contains(ascii_lower(html), seq!['<'] + name),
    ensures
        tags_named(html, name).len() == 0,
{
    lemma_first_places_are_found(ascii_lower(html), seq!['<'] + name, 0);
}

/// A quoted value goes up to the next quote of its kind, and has none where that is missing.
pub proof fn lemma_quoted_values(q: char, value: Seq<char>, tail: Seq<char>)
    requires
        q == '"' || q == '\'',
        forall|i: int| 0 <= i < value.len() ==> #[trigger] value[i] != q,
    ensures
        value_at(seq![q] + value + seq![q] + tail) == Some(value),
        value_at(seq![q] + value) is None,
{
    let s = seq![q] + value + seq![q] + tail;
    let n = value.len() as int + 1;
    lemma_first_places_are_found(s, seq![q], 1);
    assert(s.subrange(n, n + 1) =~= seq![q]);
    assert(occurs_at(s, seq![q], n));
    assert forall|j: int| 1 <= j < n implies !#[trigger] occurs_at(s, seq![q], j) by {
        assert(s.subrange(j, j + 1)[0] == value[j - 1]);
        assert(seq![q][0] == q);
    }
    assert(s.subrange(1, n) =~= value);
    let t = seq![q] + value;
    lemma_first_places_are_found(t, seq![q], 1);
    assert forall|j: int| 1 <= j implies !#[trigger] occurs_at(t, seq![q], j) by {
        if j < t.len() {
            assert(t.subrange(j, j + 1)[0] == value[j - 1]);
            assert(seq![q][0] == q);
        }
    }
}

/// A bare value goes up to the next white space; at the end of its tag it loses the slash that
/// closes the tag.
pub proof fn lemma_bare_values(value: Seq<char>, c: char, tail: Seq<char>)
    requires
        value.len() > 0,
        value[0] != '"',
        value[0] != '\'',
        forall|i: int|
            0 <= i < value.len() ==> {
                let n = (#[trigger] value[i]) as u32;
                n != 0x20 && n != 0x9 && n != 0xa && n != 0xc && n != 0xd
            },
        c == ' ' || c == '\t' || c == '\n' || c == '\r' || c == '\x0c',
    ensures
        value_at(value + seq![c] + tail) == Some(value),
        value.last() != '/' ==> value_at(value) == Some(value),
        value_at(value.push('/')) == Some(value),
{
    assert forall|i: int| 0 <= i < value.len() implies !is_ascii_white(#[trigger] value[i]) by {}
    lemma_bare(value, seq![c] + tail);
    assert(value + (seq![c] + tail) =~= value + seq![c] + tail);
    lemma_bare(value, Seq::empty());
    assert(value + Seq::<char>::empty() =~= value);
    let closed = value.push('/');
    assert forall|i: int| 0 <= i < closed.len() implies !is_ascii_white(#[trigger] closed[i]) by {
        if i < value.len() {
            assert(closed[i] == value[i]);
        }
    }
    lemma_bare(closed, Seq::empty());
    assert(closed + Seq::<char>::empty() =~= closed);
    assert(closed.drop_last() =~= value);
}

proof fn lemma_bare(value: Seq<char>, tail: Seq<char>)
    requires
        forall|i: int| 0 <= i < value.len() ==> !is_ascii_white(#[trigger] value[i]),
        tail.len() > 0 ==> is_ascii_white(tail[0]),
    ensures
        bare_value(value + tail) == value,
    decreases value.len(),
{
    let s = value + tail;
    if value.len() == 0 {
        assert(s =~= tail);
        assert(value =~= Seq::<char>::empty());
    } else {
        assert(s[0] == value[0]);
        let rest = value.skip(1);
        assert(s.skip(1) =~= rest + tail);
        assert forall|i: int| 0 <= i < rest.len() implies !is_ascii_white(#[trigger] rest[i]) by {
            assert(rest[i] == value[i + 1]);
        }
        lemma_bare(rest, tail);
        assert(seq![value[0]] + rest =~= value);
    }
}

/// An attribute is read where its name first stands as a whole: at the beginning of the tag's
/// inside or behind white space, with `=` behind it. Where the name is the end of a longer one,
/// the search goes on.
pub proof fn lemma_attributes_are_found(tag: Seq<char>, needle: Seq<char>, from: int, at: int)
    requires
        needle.len() > 0,
        0 <= from <= at,
        occurs_at(ascii_lower(tag), needle, at),
        forall|j: int| from <= j < at ==> !#[trigger] occurs_at(ascii_lower(tag), needle, j),
    ensures
        ({
            let whole = at == 0 || {
                let c = tag[at - 1];
                c == ' ' || c == '\t' || c == '\n' || c == '\r' || c == '\x0c'
            };
            &&& whole ==> attr_from(tag, needle, from) == value_at(tag.skip(at + needle.len()))
            &&& !whole ==> attr_from(tag, needle, from) == attr_from(
                tag,
                needle,
                at + needle.len(),
            )
        }),
{
    let small = ascii_lower(tag);
    lemma_first_places_are_found(small, needle, from);
    assert(first_at(small, needle, from) == Some(at));
    if at > 0 {
        assert(small[at - 1] == lower(tag[at - 1]));
    }
}

/// A tag without the name has no such attribute, and with one it is found from the beginning on.
pub proof fn lemma_missing_attributes(tag: Seq<char>, name: Seq<char>)
    ensures
        !contains(ascii_lower(tag), name + seq!['=']) ==> attr_named(tag, name) is None,
        attr_named(tag, name) == attr_from(tag, name + seq!['='], 0),
{
    lemma_first_places_are_found(ascii_lower(tag), name + seq!['='], 0);
}

/// A link loads a stylesheet where one of its words says so, a script where one says
/// `modulepreload`, and otherwise nothing.
pub proof fn lemma_what_links_load(rel: Seq<char>)
    ensures
        link_kind(rel) == Some(BundleKind::Stylesheet) <==> exists|i: int|
            0 <= i < words(rel).len() && #[trigger] words(rel)[i] == "stylesheet"@,
        link_kind(rel) == Some(BundleKind::Script) <==> (exists|i: int|
            0 <= i < words(rel).len() && #[trigger] words(rel)[i] == "modulepreload"@) && !exists|
            i: int,
        |
            0 <= i < words(rel).len() && #[trigger] words(rel)[i] == "stylesheet"@,
{
}

/// A page refers to what its `script` tags have as `src` and then to what its `link` tags that
/// load something have as `href`.
pub proof fn lemma_pages_refer_to_scripts_and_links(html: Seq<char>)
    ensures
        page_refs(html) == tags_named(html, "script"@).filter(
            |tag: Seq<char>| attr_named(tag, "src"@) is Some,
        ).map_values(|tag: Seq<char>| (attr_named(tag, "src"@)->0, BundleKind::Script))
            + tags_named(html, "link"@).filter(
            |tag: Seq<char>|
                attr_named(tag, "href"@) is Some && attr_named(tag, "rel"@) is Some && link_kind(
                    ascii_lower(attr_named(tag, "rel"@)->0),
                ) is Some,
        ).map_values(
            |tag: Seq<char>|
                (
                    attr_named(tag, "href"@)->0,
                    link_kind(ascii_lower(attr_named(tag, "rel"@)->0))->0,
                ),
        ),
{
    lemma_script_refs(tags_named(html, "script"@));
    lemma_link_refs(tags_named(html, "link"@));
}

proof fn lemma_script_refs(tags: Seq<Seq<char>>)
    ensures
        script_refs(tags) == tags.filter(
            |tag: Seq<char>| attr_named(tag, "src"@) is Some,
        ).map_values(|tag: Seq<char>| (attr_named(tag, "src"@)->0, BundleKind::Script)),
    decreases tags.len(),
{
    reveal(Seq::filter);
    if tags.len() > 0 {
        lemma_script_refs(tags.drop_last());
    }
    assert(script_refs(tags) =~= tags.filter(
        |tag: Seq<char>| attr_named(tag, "src"@) is Some,
    ).map_values(|tag: Seq<char>| (attr_named(tag, "src"@)->0, BundleKind::Script)));
}

proof fn lemma_no_rel_loads_nothing()
    ensures
        link_kind(ascii_lower(Seq::empty())) is None,
{
    let none = ascii_lower(Seq::empty());
    assert(none.len() == 0);
    assert(words(none).len() == 0);
}

proof fn lemma_link_refs(tags: Seq<Seq<char>>)
    ensures
        link_refs(tags) == tags.filter(
            |tag: Seq<char>|
                attr_named(tag, "href"@) is Some && attr_named(tag, "rel"@) is Some && link_kind(
                    ascii_lower(attr_named(tag, "rel"@)->0),
                ) is Some,
        ).map_values(
            |tag: Seq<char>|
                (
                    attr_named(tag, "href"@)->0,
                    link_kind(ascii_lower(attr_named(tag, "rel"@)->0))->0,
                ),
        ),
    decreases tags.len(),
{
    reveal(Seq::filter);
    lemma_no_rel_loads_nothing();
    let pred = |tag: Seq<char>|
        attr_named(tag, "href"@) is Some && attr_named(tag, "rel"@) is Some && link_kind(
            ascii_lower(attr_named(tag, "rel"@)->0),
        ) is Some;
    let pick = |tag: Seq<char>|
        (attr_named(tag, "href"@)->0, link_kind(ascii_lower(attr_named(tag, "rel"@)->0))->0);
    if tags.len() > 0 {
        let front = tags.drop_last();
        lemma_link_refs(front);
        assert(link_refs(front) == front.filter(pred).map_values(pick));
        if pred(tags.last()) {
            assert(tags.filter(pred) == front.filter(pred).push(tags.last()));
            assert(tags.filter(pred).map_values(pick) =~= front.filter(pred).map_values(pick).push(
                pick(tags.last()),
            ));
        } else {
            assert(tags.filter(pred) == front.filter(pred));
        }
    } else {
        assert(tags.filter(pred).map_values(pick) =~= link_refs(tags));
    }
}

/// Whether a reference is to something that can be loaded over the web.
pub open spec fn loads(reference: Seq<char>, base: Seq<char>) -> bool {
    joined_url(base, trim(reference)) is Some && {
        let scheme = joined_url(base, trim(reference))->0.scheme;
        scheme == "http"@ || scheme == "https"@
    }
}

/// Every bundle is what one of the page's references stands for, in their order: `at` tells
/// which. Up to twelve are checked, and as long as there is room none that can be loaded is left
/// out.
pub proof fn lemma_bundles_are_what_is_referred_to(
    refs: Seq<(Seq<char>, BundleKind)>,
    base: Seq<char>,
) -> (at: Seq<int>)
    ensures
        ({
            let found = bundles_of(refs, base);
            &&& at.len() == found.len() <= 12
            &&& forall|k: int|
                0 <= k < at.len() ==> 0 <= #[trigger] at[k] < refs.len() && loads(
                    refs[at[k]].0,
                    base,
                ) && found[k] == (joined_url(base, trim(refs[at[k]].0))->0, refs[at[k]].1)
            &&& forall|k: int, l: int| 0 <= k < l < at.len() ==> #[trigger] at[k] < #[trigger] at[l]
            &&& found.len() < 12 ==> forall|i: int|
                0 <= i < refs.len() && loads((#[trigger] refs[i]).0, base) ==> exists|k: int|
                    0 <= k < found.len() && (#[trigger] found[k]).0.text == joined_url(
                        base,
                        trim(refs[i].0),
                    )->0.text
        }),
    decreases refs.len(),
{
    if refs.len() == 0 {
        Seq::empty()
    } else {
        let front = refs.drop_last();
        let n = front.len() as int;
        let before = lemma_bundles_are_what_is_referred_to(front, base);
        let old = bundles_of(front, base);
        let found = bundles_of(refs, base);
        assert(refs[n] == refs.last());
        let at = if found.len() > old.len() {
            before.push(n)
        } else {
            before
        };
        assert forall|k: int| 0 <= k < at.len() implies 0 <= #[trigger] at[k] < refs.len() && loads(
            refs[at[k]].0,
            base,
        ) && found[k] == (joined_url(base, trim(refs[at[k]].0))->0, refs[at[k]].1) by {
            if k < before.len() {
                assert(before[k] == at[k]);
                assert(front[before[k]] == refs[before[k]]);
            }
        }
        if found.len() < 12 {
            assert forall|i: int|
                0 <= i < refs.len() && loads((#[trigger] refs[i]).0, base) implies exists|k: int|
                0 <= k < found.len() && (#[trigger] found[k]).0.text == joined_url(
                    base,
                    trim(refs[i].0),
                )->0.text by {
                if i < n {
                    assert(front[i] == refs[i]);
                    let k = choose|k: int|
                        0 <= k < old.len() && (#[trigger] old[k]).0.text == joined_url(
                            base,
                            trim(front[i].0),
                        )->0.text;
                    assert(found[k] == old[k]);
                } else if has_bundle(old, joined_url(base, trim(refs[i].0))->0.text) {
                    assert(found == old);
                } else {
                    assert(found[old.len() as int].0 == joined_url(base, trim(refs[i].0))->0);
                }
            }
        }
        at
    }
}

/// A script has to be served as one, and a stylesheet as one.
pub proof fn lemma_bundles_have_types(ct: Seq<char>)
    ensures
        right_type(BundleKind::Script, ct) <==> contains(ct, "javascript"@) || contains(
            ct,
            "ecmascript"@,
        ),
        right_type(BundleKind::Stylesheet, ct) <==> contains(ct, "text/css"@),
{
}

} // verus!
