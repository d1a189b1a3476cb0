//! Locales and message catalogues. English is the source: it defines the key
//! set every other locale is held to. The reader's locale comes from the
//! cookie the hosting shell sets; a missing or unknown value means English.
use vstd::prelude::*;
use crate::domain::ApartmentStatus;
use crate::text::{chars_text, lemma_split_on_nonempty, same_text, split_on, trim, trimmed};

verus! {

/// The locales the catalogues are written in.
#[derive(Clone, Copy, Debug, PartialEq, Eq, Structural)]
pub enum Locale {
    En,
    Ru,
    Vi,
    Fr,
    De,
}

/// The canonical locale: the source every other locale is written against.
pub const DEFAULT_LOCALE: Locale = Locale::En;

/// A locale's language subtag.
pub open spec fn locale_code(l: Locale) -> Seq<char> {
    match l {
        Locale::En => "en"@,
        Locale::Ru => "ru"@,
        Locale::Vi => "vi"@,
        Locale::Fr => "fr"@,
        Locale::De => "de"@,
    }
}

/// The locale whose subtag is exactly `s`, if any.
pub open spec fn locale_named(s: Seq<char>) -> Option<Locale> {
    if s == "en"@ {
        Some(Locale::En)
    } else if s == "ru"@ {
        Some(Locale::Ru)
    } else if s == "vi"@ {
        Some(Locale::Vi)
    } else if s == "fr"@ {
        Some(Locale::Fr)
    } else if s == "de"@ {
        Some(Locale::De)
    } else {
        None
    }
}

impl Locale {
    /// The language subtag (`en`, `ru`, `vi`, `fr`, `de`).
    pub fn code(self) -> (r: &'static str)
        ensures
            r@ == locale_code(self),
    {
        match self {
            Locale::En => "en",
            Locale::Ru => "ru",
            Locale::Vi => "vi",
            Locale::Fr => "fr",
            Locale::De => "de",
        }
    }

    /// Reads untrusted input (a cookie, a URL segment): exactly a subtag.
    pub fn parse(value: &str) -> (r: Option<Locale>)
        ensures
            r == locale_named(value@),
    {
        if same_text(value, "en") {
            Some(Locale::En)
        } else if same_text(value, "ru") {
            Some(Locale::Ru)
        } else if same_text(value, "vi") {
            Some(Locale::Vi)
        } else if same_text(value, "fr") {
            Some(Locale::Fr)
        } else if same_text(value, "de") {
            Some(Locale::De)
        } else {
            None
        }
    }
}

/// Parsing a locale's own subtag gives the locale back.
pub proof fn lemma_code_round_trip(l: Locale)
    ensures
        locale_named(locale_code(l)) == Some(l),
{
    reveal_strlit("en");
    reveal_strlit("ru");
    reveal_strlit("vi");
    reveal_strlit("fr");
    reveal_strlit("de");
    assert("en"@[0] == 'e' && "ru"@[0] == 'r' && "vi"@[0] == 'v' && "fr"@[0] == 'f' && "de"@[0] == 'd');
}

/// Where a cookie pair splits: the first `=`, or the length when there is
/// none.
pub open spec fn eq_index(s: Seq<char>) -> nat
    decreases s.len(),
{
    if s.len() == 0 {
        0
    } else if s[0] == '=' {
        0
    } else {
        1 + eq_index(s.drop_first())
    }
}

/// `str::split_once('=')`: the text before the first `=` and after it.
pub open spec fn pair_of(s: Seq<char>) -> Option<(Seq<char>, Seq<char>)> {
    let k = eq_index(s);
    if k < s.len() {
        Some((s.subrange(0, k as int), s.subrange(k as int + 1, s.len() as int)))
    } else {
        None
    }
}

/// The raw value of the first pair, among the `;`-separated fields, whose
/// trimmed name is `ev_locale`: the cookie the hosting shell records the
/// negotiated locale in.
pub open spec fn cookie_value(fields: Seq<Seq<char>>) -> Option<Seq<char>>
    decreases fields.len(),
{
    if fields.len() == 0 {
        None
    } else {
        match cookie_value(fields.drop_last()) {
            Some(v) => Some(v),
            None => match pair_of(fields.last()) {
                Some((name, value)) => if trimmed(name) == "ev_locale"@ {
                    Some(value)
                } else {
                    None
                },
                None => None,
            },
        }
    }
}

/// The locale a `document.cookie` string selects: the first locale cookie's
/// trimmed value when it names a locale, English otherwise.
pub open spec fn cookie_locale(cookies: Seq<char>) -> Locale {
    match cookie_value(split_on(cookies, ';')) {
        Some(v) => match locale_named(trimmed(v)) {
            Some(l) => l,
            None => Locale::En,
        },
        None => Locale::En,
    }
}

proof fn lemma_eq_index_is_first(s: Seq<char>, k: int)
    requires
        0 <= k <= s.len(),
        k < s.len() ==> s[k] == '=',
        forall|j: int| 0 <= j < k ==> s[j] != '=',
    ensures
        eq_index(s) == k,
    decreases s.len(),
{
    if s.len() > 0 && k > 0 {
        assert forall|j: int| 0 <= j < k - 1 implies s.drop_first()[j] != '=' by {
            assert(s.drop_first()[j] == s[j + 1]);
        }
        if k - 1 < s.drop_first().len() {
            assert(s.drop_first()[k - 1] == s[k]);
        }
        lemma_eq_index_is_first(s.drop_first(), k - 1);
    }
}

/// The value of `field` when it is the locale cookie's pair.
fn locale_pair_value(field: &Vec<char>) -> (r: Option<String>)
    ensures
        match pair_of(field@) {
            Some((name, value)) => if trimmed(name) == "ev_locale"@ {
                r matches Some(v) && v@ == value
            } else {
                r is None
            },
            None => r is None,
        },
{
    let n = field.len();
    let mut k: usize = 0;
    while k < n && field[k] != '='
        invariant
            n == field@.len(),
            k <= n,
            forall|j: int| 0 <= j < k ==> field@[j] != '=',
        decreases n - k,
    {
        k = k + 1;
    }
    proof {
        lemma_eq_index_is_first(field@, k as int);
    }
    if k == n {
        return None;
    }
    let name = chars_text(field, 0, k);
    if !same_text(trim(name.as_str()), "ev_locale") {
        proof {
            reveal_strlit("ev_locale");
        }
        return None;
    }
    proof {
        reveal_strlit("ev_locale");
    }
    Some(chars_text(field, k + 1, n))
}

/// The reader's locale from a `document.cookie` string. No fallback to the
/// browser's language: the hosting shell has already negotiated and set the
/// cookie, and guessing again could disagree with it.
pub fn locale_from_cookies(cookies: &str) -> (r: Locale)
    ensures
        r == cookie_locale(cookies@),
{
    let n = cookies.unicode_len();
    let mut found: Option<String> = None;
    let mut field: Vec<char> = Vec::new();
    let mut i: usize = 0;
    proof {
        assert(cookies@.subrange(0, 0) =~= Seq::<char>::empty());
        lemma_split_on_nonempty(cookies@.subrange(0, 0), ';');
    }
    while i < n
        invariant
            n == cookies@.len(),
            i <= n,
            split_on(cookies@.subrange(0, i as int), ';').len() >= 1,
            field@ == split_on(cookies@.subrange(0, i as int), ';').last(),
            match cookie_value(split_on(cookies@.subrange(0, i as int), ';').drop_last()) {
                Some(v) => found matches Some(f) && f@ == v,
                None => found is None,
            },
        decreases n - i,
    {
        let c = cookies.get_char(i);
        let ghost before = split_on(cookies@.subrange(0, i as int), ';');
        proof {
            let pre = cookies@.subrange(0, i + 1);
            assert(pre.drop_last() =~= cookies@.subrange(0, i as int));
            assert(pre.last() == c);
            lemma_split_on_nonempty(pre, ';');
        }
        if c == ';' {
            if found.is_none() {
                found = locale_pair_value(&field);
            }
            proof {
                let after = before.push(Seq::<char>::empty());
                assert(after.drop_last() =~= before);
                assert(before.drop_last().push(before.last()) =~= before);
            }
            field = Vec::new();
        } else {
            field.push(c);
            proof {
                let after = before.update(before.len() - 1, before.last().push(c));
                assert(after.drop_last() =~= before.drop_last());
            }
        }
        i = i + 1;
    }
    proof {
        assert(cookies@.subrange(0, n as int) =~= cookies@);
        let fields = split_on(cookies@, ';');
        assert(fields.drop_last().push(fields.last()) =~= fields);
    }
    if found.is_none() {
        found = locale_pair_value(&field);
    }
    match found {
        Some(v) => match Locale::parse(trim(v.as_str())) {
            Some(l) => l,
            None => Locale::En,
        },
        None => Locale::En,
    }
}

/// The catalogue key of a lot's status.
pub open spec fn status_key_text(s: ApartmentStatus) -> Seq<char> {
    match s {
        ApartmentStatus::Available => "status.available"@,
        ApartmentStatus::Sold => "status.sold"@,
        ApartmentStatus::Purchasing => "status.purchasing"@,
        ApartmentStatus::Purchased(_) => "status.purchased"@,
        ApartmentStatus::Interesting => "status.interesting"@,
    }
}

/// The catalogue key for an apartment's portfolio state: one mapping for
/// every surface, so a lot reads the same everywhere.
pub fn status_key(status: ApartmentStatus) -> (r: &'static str)
    ensures
        r@ == status_key_text(status),
{
    match status {
        ApartmentStatus::Available => "status.available",
        ApartmentStatus::Sold => "status.sold",
        ApartmentStatus::Purchasing => "status.purchasing",
        ApartmentStatus::Purchased(_) => "status.purchased",
        ApartmentStatus::Interesting => "status.interesting",
    }
}

/// What `serde_json::from_str` makes of a catalogue's text read as a map
/// from key to text: its entries in key order, or the error's text.
pub uninterp spec fn parsed_messages(text: Seq<char>) -> Result<Seq<(Seq<char>, Seq<char>)>, Seq<char>>;

/// The plain form of what [`parse_messages`] hands back.
pub open spec fn messages_view(r: Result<Vec<(String, String)>, String>) -> Result<
    Seq<(Seq<char>, Seq<char>)>,
    Seq<char>,
> {
    match r {
        Ok(es) => Ok(es@.map_values(|e: (String, String)| (e.0@, e.1@))),
        Err(m) => Err(m@),
    }
}

/// Parses a flat catalogue (`serde_json::from_str` into a `BTreeMap` from
/// key to text) and lists its entries; a map's keys are distinct.
#[verifier::external_body]
fn parse_messages(text: &str) -> (r: Result<Vec<(String, String)>, String>)
    ensures
        messages_view(r) == parsed_messages(text@),
        r matches Ok(es) ==> forall|i: int, j: int| 0 <= i < j < es@.len() ==> es@[i].0@ != es@[j].0@,
{
    match serde_json::from_str::<std::collections::BTreeMap<String, String>>(text) {
        Ok(m) => Ok(m.into_iter().collect()),
        Err(e) => Err(e.to_string()),
    }
}

/// One surface's five catalogues, as the text they were built in with.
/// English is flat `key → text`; every other locale is `key → {en, t}`,
/// carrying the English each entry was written against.
#[derive(Clone, Copy)]
pub struct Catalogues {
    pub en: &'static str,
    pub ru: &'static str,
    pub vi: &'static str,
    pub fr: &'static str,
    pub de: &'static str,
}

impl Catalogues {
    /// The translated catalogue of a locale; English has none, being the
    /// source.
    pub fn raw_for(&self, locale: Locale) -> (r: Option<&'static str>)
        ensures
            r == match locale {
                Locale::En => None,
                Locale::Ru => Some(self.ru),
                Locale::Vi => Some(self.vi),
                Locale::Fr => Some(self.fr),
                Locale::De => Some(self.de),
            },
    {
        match locale {
            Locale::En => None,
            Locale::Ru => Some(self.ru),
            Locale::Vi => Some(self.vi),
            Locale::Fr => Some(self.fr),
            Locale::De => Some(self.de),
        }
    }

    /// The English catalogue's entries: the key set every locale must match.
    pub fn source(&self) -> (r: Vec<(String, String)>)
        requires
            parsed_messages(self.en@) is Ok,
        ensures
            Ok::<Seq<(Seq<char>, Seq<char>)>, Seq<char>>(r@.map_values(|e: (String, String)| (e.0@, e.1@)))
                == parsed_messages(self.en@),
    {
        match parse_messages(self.en) {
            Ok(es) => es,
            Err(_) => Vec::new(),
        }
    }

    /// Number of keys English defines: the size every locale must match.
    pub fn key_count(&self) -> (r: usize)
        requires
            parsed_messages(self.en@) is Ok,
        ensures
            r == parsed_messages(self.en@)->Ok_0.len(),
    {
        self.source().len()
    }

    /// The key count when the English catalogue parses, `None` when it is
    /// malformed.
    pub fn checked_key_count(&self) -> (r: Option<usize>)
        ensures
            match parsed_messages(self.en@) {
                Ok(es) => r == Some(es.len() as usize),
                Err(_) => r is None,
            },
    {
        match parse_messages(self.en) {
            Ok(_) => Some(self.key_count()),
            Err(_) => None,
        }
    }
}

} // verus!
