//! Per-building translations of the two prose fields a reader actually reads:
//! the terms and the investment reasoning. Names and developers are proper
//! nouns and stay as written.
//!
//! The translations live in a sidecar keyed by the building's UUID, its
//! locale and the field. Each entry records the English it was written
//! against, and a field whose English has since moved is refused: the current
//! English renders instead. Nothing here ever blanks a field.
use vstd::prelude::*;
use crate::domain::{Building, uuid_text};
use crate::i18n::{Locale, locale_code};
use crate::text::same_text;

verus! {

/// The prose fields that are translated.
#[derive(Clone, Copy, Debug, PartialEq, Eq, Structural)]
pub enum ProseField {
    Terms,
    Reasoning,
}

/// The sidecar's name for a field.
pub open spec fn field_name(f: ProseField) -> Seq<char> {
    match f {
        ProseField::Terms => "terms"@,
        ProseField::Reasoning => "reasoning"@,
    }
}

impl ProseField {
/// The sidecar's name for this field.
    pub fn name(self) -> (r: &'static str)
        ensures
            r@ == field_name(self),
    {
        match self {
            ProseField::Terms => "terms",
            ProseField::Reasoning => "reasoning",
        }
    }
}

/// One translated field: the building (its UUID text), the locale code, the
/// field name, the English it was written against, and the text in that locale.
#[derive(Debug)]
pub struct SidecarEntry {
    pub building: String,
    pub locale: String,
    pub field: String,
    pub en: String,
    pub t: String,
}

/// The sidecar of translated prose fields.
#[derive(Debug)]
pub struct Sidecar {
    pub entries: Vec<SidecarEntry>,
}

/// A sidecar entry as plain text: building, locale, field, English, text.
pub open spec fn entry_model(e: SidecarEntry) -> (Seq<char>, Seq<char>, Seq<char>, Seq<char>, Seq<char>) {
    (e.building@, e.locale@, e.field@, e.en@, e.t@)
}

impl View for Sidecar {
    type V = Seq<(Seq<char>, Seq<char>, Seq<char>, Seq<char>, Seq<char>)>;

    open spec fn view(&self) -> Self::V {
        self.entries@.map_values(|e: SidecarEntry| entry_model(e))
    }
}

/// The `(en, t)` recorded for a building, locale and field: the last entry
/// for that key, so a later entry replaces an earlier one.
pub open spec fn sidecar_lookup(
    es: Seq<(Seq<char>, Seq<char>, Seq<char>, Seq<char>, Seq<char>)>,
    building: Seq<char>,
    locale: Seq<char>,
    field: Seq<char>,
) -> Option<(Seq<char>, Seq<char>)>
    decreases es.len(),
{
    if es.len() == 0 {
        None
    } else {
        let e = es.last();
        if e.0 == building && e.1 == locale && e.2 == field {
            Some((e.3, e.4))
        } else {
            sidecar_lookup(es.drop_last(), building, locale, field)
        }
    }
}

/// A field as a locale should see it: English is the source and is never
/// looked up; otherwise the recorded translation, but only when it was made
/// from the English now on the record; the current English in every other
/// case.
pub open spec fn translated(
    es: Seq<(Seq<char>, Seq<char>, Seq<char>, Seq<char>, Seq<char>)>,
    building: Seq<char>,
    locale: Locale,
    field: Seq<char>,
    current: Seq<char>,
) -> Seq<char> {
    if locale == Locale::En {
        current
    } else {
        match sidecar_lookup(es, building, locale_code(locale), field) {
            Some((en, t)) => if en == current {
                t
            } else {
                current
            },
            None => current,
        }
    }
}

impl Sidecar {
    /// An empty sidecar.
    pub fn new() -> (r: Sidecar)
        ensures
            r@ == Seq::<(Seq<char>, Seq<char>, Seq<char>, Seq<char>, Seq<char>)>::empty(),
    {
        Sidecar { entries: Vec::new() }
    }

    /// Records a translation, replacing any earlier one for the same
    /// building, locale and field.
    pub fn insert(&mut self, entry: SidecarEntry)
        ensures
            final(self)@ == old(self)@.push(entry_model(entry)),
    {
        self.entries.push(entry);
        proof {
            assert(self@ =~= old(self)@.push(entry_model(entry)));
        }
    }

    /// The recorded `(en, t)` for a building, locale and field.
    pub fn get(&self, building: &str, locale: &str, field: &str) -> (r: Option<(&str, &str)>)
        ensures
            match sidecar_lookup(self@, building@, locale@, field@) {
                Some((en, t)) => r matches Some((a, b)) && a@ == en && b@ == t,
                None => r is None,
            },
    {
        let mut i = self.entries.len();
        proof {
            assert(self@.subrange(0, i as int) =~= self@);
        }
        while i > 0
            invariant
                i <= self.entries@.len(),
                sidecar_lookup(self@, building@, locale@, field@) == sidecar_lookup(
                    self@.subrange(0, i as int),
                    building@,
                    locale@,
                    field@,
                ),
            decreases i,
        {
            let e = &self.entries[i - 1];
            proof {
                let pre = self@.subrange(0, i as int);
                assert(pre.drop_last() =~= self@.subrange(0, i - 1));
                assert(pre.last() == entry_model(self.entries@[i - 1]));
            }
            if same_text(e.building.as_str(), building) && same_text(e.locale.as_str(), locale) && same_text(
                e.field.as_str(),
                field,
            ) {
                return Some((e.en.as_str(), e.t.as_str()));
            }
            i = i - 1;
        }
        None
    }
}

/// The field as this locale should see it. Never blanks: an unknown
/// building, a missing locale or field, and a stale entry all give the
/// English already on the record.
pub fn field(sidecar: &Sidecar, building: &Building, locale: Locale, name: ProseField, current: &str) -> (r: String)
    ensures
        r@ == translated(sidecar@, uuid_text(building.id.raw), locale, field_name(name), current@),
{
    if locale == Locale::En {
        return current.to_owned();
    }
    let key = building.id.text();
    match sidecar.get(key.as_str(), locale.code(), name.name()) {
        Some((en, t)) => {
            if same_text(en, current) {
                t.to_owned()
            } else {
                current.to_owned()
            }
        },
        None => current.to_owned(),
    }
}

/// Handover and legal terms in this locale, where the record has any.
pub fn terms(sidecar: &Sidecar, building: &Building, locale: Locale) -> (r: Option<String>)
    ensures
        match building.terms {
            Some(c) => r matches Some(t) && t@ == translated(
                sidecar@,
                uuid_text(building.id.raw),
                locale,
                "terms"@,
                c@,
            ),
            None => r is None,
        },
{
    match &building.terms {
        Some(c) => Some(field(sidecar, building, locale, ProseField::Terms, c.as_str())),
        None => None,
    }
}

/// The investment rationale in this locale, where the record has any.
pub fn reasoning(sidecar: &Sidecar, building: &Building, locale: Locale) -> (r: Option<String>)
    ensures
        match building.additional_reasoning {
            Some(c) => r matches Some(t) && t@ == translated(
                sidecar@,
                uuid_text(building.id.raw),
                locale,
                "reasoning"@,
                c@,
            ),
            None => r is None,
        },
{
    match &building.additional_reasoning {
        Some(c) => Some(field(sidecar, building, locale, ProseField::Reasoning, c.as_str())),
        None => None,
    }
}

/// A recorded translation made from the English now on the record is what a
/// non-English reader sees, until the English moves: then the English shows.
pub proof fn lemma_recorded_translation_serves(
    es: Seq<(Seq<char>, Seq<char>, Seq<char>, Seq<char>, Seq<char>)>,
    building: Seq<char>,
    locale: Locale,
    field: Seq<char>,
    en: Seq<char>,
    t: Seq<char>,
    current: Seq<char>,
)
    requires
        locale != Locale::En,
    ensures
        translated(es.push((building, locale_code(locale), field, en, t)), building, locale, field, current) == (
        if en == current {
            t
        } else {
            current
        }),
{
    let s = es.push((building, locale_code(locale), field, en, t));
    assert(s.drop_last() =~= es);
}

/// English readers see the record itself, whatever the sidecar holds.
pub proof fn lemma_english_is_the_source(
    es: Seq<(Seq<char>, Seq<char>, Seq<char>, Seq<char>, Seq<char>)>,
    building: Seq<char>,
    field: Seq<char>,
    current: Seq<char>,
)
    ensures
        translated(es, building, Locale::En, field, current) == current,
{
}

/// A field is only ever shown as the English on the record or as a
/// translation recorded against exactly that English.
pub proof fn lemma_never_stale(
    es: Seq<(Seq<char>, Seq<char>, Seq<char>, Seq<char>, Seq<char>)>,
    building: Seq<char>,
    locale: Locale,
    field: Seq<char>,
    current: Seq<char>,
)
    ensures
        translated(es, building, locale, field, current) == current || sidecar_lookup(
            es,
            building,
            locale_code(locale),
            field,
        ) == Some((current, translated(es, building, locale, field, current))),
{
}

/// A field never blanks: a non-empty English record shows non-empty text in
/// every locale, provided the translation recorded for it is not blank.
pub proof fn lemma_never_blank(
    es: Seq<(Seq<char>, Seq<char>, Seq<char>, Seq<char>, Seq<char>)>,
    building: Seq<char>,
    locale: Locale,
    field: Seq<char>,
    current: Seq<char>,
)
    requires
        current.len() > 0,
        sidecar_lookup(es, building, locale_code(locale), field) matches Some((_, t)) ==> t.len() > 0,
    ensures
        translated(es, building, locale, field, current).len() > 0,
{
}

/// What a read gives back of a write: after recording an entry, looking up
/// its building, locale and field gives that entry's English and text, and
/// every other key reads as before.
pub proof fn lemma_sidecar_read_after_write(
    es: Seq<(Seq<char>, Seq<char>, Seq<char>, Seq<char>, Seq<char>)>,
    e: (Seq<char>, Seq<char>, Seq<char>, Seq<char>, Seq<char>),
    building: Seq<char>,
    locale: Seq<char>,
    field: Seq<char>,
)
    ensures
        sidecar_lookup(es.push(e), e.0, e.1, e.2) == Some((e.3, e.4)),
        !(building == e.0 && locale == e.1 && field == e.2) ==> sidecar_lookup(es.push(e), building, locale, field)
            == sidecar_lookup(es, building, locale, field),
{
    assert(es.push(e).drop_last() =~= es);
}

} // verus!
