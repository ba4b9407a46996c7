//! The UI's language (`APP_LANG`: `es` or `en`) and its catalog: server-side strings by key,
//! with `{placeholders}` filled from named values.

use vstd::prelude::*;

use crate::catalogs::EN;
use crate::catalogs::ES;
use crate::text::ascii_lower;
use crate::text::replace;
use crate::text::replaced;
use crate::text::same;
use crate::text::to_ascii_lower;
use crate::text::trim;
use crate::text::trimmed;

verus! {

#[derive(Debug, Clone, Copy, PartialEq, Eq, Structural)]
pub enum Lang {
    Es,
    En,
}

impl Default for Lang {
    fn default() -> (r: Self)
        ensures
            r == Lang::Es,
    {
        Lang::Es
    }
}

/// The code that names a language.
pub open spec fn lang_code(lang: Lang) -> Seq<char> {
    match lang {
        Lang::Es => "es"@,
        Lang::En => "en"@,
    }
}

/// The language that a setting names, in any case and with blanks around it.
pub open spec fn lang_named(raw: Seq<char>) -> Option<Lang> {
    let code = ascii_lower(trim(raw));
    if code == "es"@ {
        Some(Lang::Es)
    } else if code == "en"@ {
        Some(Lang::En)
    } else {
        None
    }
}

/// The embedded catalog of a language, a flat JSON object of strings.
pub open spec fn source(lang: Lang) -> Seq<char> {
    match lang {
        Lang::Es => ES@,
        Lang::En => EN@,
    }
}

impl Lang {
    #[must_use]
    pub fn code(self) -> (r: &'static str)
        ensures
            r@ == lang_code(self),
    {
        match self {
            Lang::Es => "es",
            Lang::En => "en",
        }
    }

    pub fn catalog_source(self) -> (r: &'static str)
        ensures
            r@ == source(self),
    {
        match self {
            Lang::Es => ES,
            Lang::En => EN,
        }
    }

    /// The language that `raw` names, if it names one.
    pub fn parse(raw: &str) -> (r: Option<Lang>)
        ensures
            r == lang_named(raw@),
    {
        let entry = trimmed(raw);
        let code = to_ascii_lower(entry.as_str());
        if same(code.as_str(), "es") {
            Some(Lang::Es)
        } else if same(code.as_str(), "en") {
            Some(Lang::En)
        } else {
            None
        }
    }
}

impl std::str::FromStr for Lang {
    type Err = ();

    fn from_str(s: &str) -> (r: Result<Self, ()>)
        ensures
            match lang_named(s@) {
                Some(lang) => r == Ok::<Lang, ()>(lang),
                None => r is Err,
            },
    {
        match Lang::parse(s) {
            Some(lang) => Ok(lang),
            None => Err(()),
        }
    }
}

/// What `serde_json::from_str` reads from a text as a flat object of strings: its entries by
/// key, or nothing where the text is not one.
pub uninterp spec fn json_strings(source: Seq<char>) -> Option<Seq<(Seq<char>, Seq<char>)>>;

/// The keys and values of a catalog.
pub open spec fn entry_views(entries: Seq<(String, String)>) -> Seq<(Seq<char>, Seq<char>)> {
    entries.map_values(|e: (String, String)| (e.0@, e.1@))
}

/// `serde_json::from_str` for a map from strings to strings: an entry for each key of the
/// object, or nothing where `source` is not a JSON object whose values are all strings.
#[verifier::external_body]
fn parse_strings(source: &str) -> (r: Option<Vec<(String, String)>>)
    ensures
        match r {
            Some(entries) => json_strings(source@) == Some(entry_views(entries@)),
            None => json_strings(source@) is None,
        },
{
    let parsed: Option<std::collections::BTreeMap<String, String>> = serde_json::from_str(source).ok();
    parsed.map(|entries| entries.into_iter().collect())
}

/// The value of `key` in a list of entries: the first one that has it.
pub open spec fn lookup(entries: Seq<(Seq<char>, Seq<char>)>, key: Seq<char>) -> Option<Seq<char>>
    decreases entries.len(),
{
    if entries.len() == 0 {
        None
    } else if entries[0].0 == key {
        Some(entries[0].1)
    } else {
        lookup(entries.skip(1), key)
    }
}

/// A name between braces: what stands for its value in a text.
pub open spec fn braced(name: Seq<char>) -> Seq<char> {
    seq!['{'] + name + seq!['}']
}

pub open spec fn arg_views(args: Seq<(&str, &str)>) -> Seq<(Seq<char>, Seq<char>)> {
    args.map_values(|p: (&str, &str)| (p.0@, p.1@))
}

/// `text` with each `{name}` replaced by its value, one name after the other.
pub open spec fn filled(text: Seq<char>, args: Seq<(Seq<char>, Seq<char>)>) -> Seq<char>
    decreases args.len(),
{
    if args.len() == 0 {
        text
    } else {
        replace(filled(text, args.drop_last()), braced(args.last().0), args.last().1)
    }
}

/// The active language's catalog.
#[derive(Debug)]
pub struct I18n {
    lang: Lang,
    strings: Vec<(String, String)>,
}

impl I18n {
    pub closed spec fn language(&self) -> Lang {
        self.lang
    }

    /// The catalog's entries.
    pub closed spec fn entries(&self) -> Seq<(Seq<char>, Seq<char>)> {
        entry_views(self.strings@)
    }

    /// The text of `key`; of a key that the catalog lacks, the key itself.
    pub open spec fn template(&self, key: Seq<char>) -> Seq<char> {
        match lookup(self.entries(), key) {
            Some(text) => text,
            None => key,
        }
    }

    /// The text of `key` filled with `args`.
    pub open spec fn message(&self, key: Seq<char>, args: Seq<(Seq<char>, Seq<char>)>) -> Seq<
        char,
    > {
        filled(self.template(key), args)
    }

    /// The catalog of `lang`, which has to be a flat JSON object of strings.
    #[must_use]
    pub fn new(lang: Lang) -> (r: Self)
        requires
            json_strings(source(lang)) is Some,
        ensures
            r.language() == lang,
            Some(r.entries()) == json_strings(source(lang)),
    {
        let mut strings: Vec<(String, String)> = Vec::new();
        if let Some(parsed) = parse_strings(lang.catalog_source()) {
            strings = parsed;
        }
        I18n { lang, strings }
    }

    /// The catalog of `lang`, or nothing where it is not a flat JSON object of strings.
    #[must_use]
    pub fn load(lang: Lang) -> (r: Option<Self>)
        ensures
            match r {
                Some(i18n) => i18n.language() == lang && Some(i18n.entries()) == json_strings(
                    source(lang),
                ),
                None => json_strings(source(lang)) is None,
            },
    {
        match parse_strings(lang.catalog_source()) {
            Some(_) => Some(I18n::new(lang)),
            None => None,
        }
    }

    #[must_use]
    pub fn lang(&self) -> (r: Lang)
        ensures
            r == self.language(),
    {
        self.lang
    }

    /// The string for `key` with each `{name}` replaced by its value from `args`. An unknown
    /// key renders as the key itself, so a missing translation is visible rather than blank.
    #[must_use]
    pub fn text(&self, key: &str, args: &[(&str, &str)]) -> (r: String)
        ensures
            r@ == self.message(key@, arg_views(args@)),
    {
        let mut out = self.find(key);
        let ghost base = out@;
        let mut i: usize = 0;
        proof {
            assert(arg_views(args@).take(0) =~= Seq::<(Seq<char>, Seq<char>)>::empty());
        }
        while i < args.len()
            invariant
                i <= args@.len(),
                out@ == filled(base, arg_views(args@).take(i as int)),
            decreases args@.len() - i,
        {
            let (name, value) = args[i];
            let mut slot = String::new();
            slot.push('{');
            slot.append(name);
            slot.push('}');
            proof {
                let all = arg_views(args@);
                assert(all.take(i as int + 1).drop_last() =~= all.take(i as int));
                assert(slot@ =~= braced(name@));
            }
            out = replaced(out.as_str(), slot.as_str(), value);
            i += 1;
        }
        proof {
            assert(arg_views(args@).take(args@.len() as int) =~= arg_views(args@));
        }
        out
    }

    /// The string for `key`, with nothing to fill.
    pub fn line(&self, key: &str) -> (r: String)
        ensures
            r@ == self.template(key@),
    {
        let args: Vec<(&str, &str)> = Vec::new();
        proof {
            assert(arg_views(args@) =~= Seq::<(Seq<char>, Seq<char>)>::empty());
        }
        self.text(key, args.as_slice())
    }

    /// The string for `key` filled with one value.
    pub fn line1(&self, key: &str, name: &str, value: &str) -> (r: String)
        ensures
            r@ == self.message(key@, seq![(name@, value@)]),
    {
        let mut args: Vec<(&str, &str)> = Vec::new();
        args.push((name, value));
        proof {
            assert(arg_views(args@) =~= seq![(name@, value@)]);
        }
        self.text(key, args.as_slice())
    }

    /// The string for `key` filled with two values.
    pub fn line2(&self, key: &str, a: (&str, &str), b: (&str, &str)) -> (r: String)
        ensures
            r@ == self.message(key@, seq![(a.0@, a.1@), (b.0@, b.1@)]),
    {
        let mut args: Vec<(&str, &str)> = Vec::new();
        args.push(a);
        args.push(b);
        proof {
            assert(arg_views(args@) =~= seq![(a.0@, a.1@), (b.0@, b.1@)]);
        }
        self.text(key, args.as_slice())
    }

    /// The string for `key` filled with three values.
    pub fn line3(&self, key: &str, a: (&str, &str), b: (&str, &str), c: (&str, &str)) -> (r:
        String)
        ensures
            r@ == self.message(key@, seq![(a.0@, a.1@), (b.0@, b.1@), (c.0@, c.1@)]),
    {
        let mut args: Vec<(&str, &str)> = Vec::new();
        args.push(a);
        args.push(b);
        args.push(c);
        proof {
            assert(arg_views(args@) =~= seq![(a.0@, a.1@), (b.0@, b.1@), (c.0@, c.1@)]);
        }
        self.text(key, args.as_slice())
    }

    /// The string for `key` filled with four values.
    pub fn line4(
        &self,
        key: &str,
        a: (&str, &str),
        b: (&str, &str),
        c: (&str, &str),
        d: (&str, &str),
    ) -> (r: String)
        ensures
            r@ == self.message(
                key@,
                seq![(a.0@, a.1@), (b.0@, b.1@), (c.0@, c.1@), (d.0@, d.1@)],
            ),
    {
        let mut args: Vec<(&str, &str)> = Vec::new();
        args.push(a);
        args.push(b);
        args.push(c);
        args.push(d);
        proof {
            assert(arg_views(args@) =~= seq![
                (a.0@, a.1@),
                (b.0@, b.1@),
                (c.0@, c.1@),
                (d.0@, d.1@),
            ]);
        }
        self.text(key, args.as_slice())
    }

    fn find(&self, key: &str) -> (r: String)
        ensures
            r@ == self.template(key@),
    {
        let ghost all = self.entries();
        let mut i: usize = 0;
        proof {
            assert(all.skip(0) =~= all);
        }
        while i < self.strings.len()
            invariant
                i <= self.strings@.len(),
                all == entry_views(self.strings@),
                lookup(all, key@) == lookup(all.skip(i as int), key@),
            decreases self.strings@.len() - i,
        {
            proof {
                assert(all.skip(i as int)[0] == all[i as int]);
                assert(all.skip(i as int).skip(1) =~= all.skip(i as int + 1));
            }
            if same(self.strings[i].0.as_str(), key) {
                return self.strings[i].1.clone();
            }
            i += 1;
        }
        key.to_owned()
    }

    /// Every key of the catalog.
    pub fn keys(&self) -> (r: Vec<String>)
        ensures
            crate::text::views(r@) == self.entries().map_values(
                |e: (Seq<char>, Seq<char>)| e.0,
            ),
    {
        let mut out: Vec<String> = Vec::new();
        let mut i: usize = 0;
        while i < self.strings.len()
            invariant
                i <= self.strings@.len(),
                out@.len() == i,
                forall|j: int| 0 <= j < i ==> (#[trigger] out@[j])@ == self.strings@[j].0@,
            decreases self.strings@.len() - i,
        {
            out.push(self.strings[i].0.clone());
            i += 1;
        }
        proof {
            assert(crate::text::views(out@) =~= self.entries().map_values(
                |e: (Seq<char>, Seq<char>)| e.0,
            ));
        }
        out
    }
}

/// An error that can be shown to the admin in the UI's language.
pub trait Localize {
    /// What the pages show.
    spec fn localized(&self, i18n: &I18n) -> Seq<char>;

    fn localize(&self, i18n: &I18n) -> (r: String)
        ensures
            r@ == self.localized(i18n),
    ;
}

} // verus!
