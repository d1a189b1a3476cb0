//! Dashboard layout seeds: the saved dock arrangement per band group. Bands
//! are grouped coarser than they are measured (xl/lg share one seed, so do
//! sm/xs), and a group without its own seed opens onto the `default` one.
use vstd::prelude::*;
use crate::text::{same_text, text_lt, text_less};

verus! {

#[verifier::external_type_specification]
#[verifier::external_body]
pub struct ExJsonValue(serde_json::Value);

/// The viewport band the dock measured.
#[derive(Clone, Copy, Debug, PartialEq, Eq, Structural)]
pub enum Breakpoint {
    Xl,
    Lg,
    Md,
    Sm,
    Xs,
}

/// What becomes of a band once the load of its saved layout has answered.
#[derive(Debug, PartialEq, Eq)]
pub enum BandAction {
    /// The dock has crossed into another band meanwhile; that crossing runs
    /// its own load, so this answer is dropped.
    Stale,
    /// Load this saved arrangement (JSON).
    Apply(String),
    /// Seed the built-in arrangement.
    BuiltIn,
}

/// Decides a band's layout once its load has answered: nothing when the dock
/// has moved on to another band, the saved arrangement when there is one,
/// and the built-in seed when none is saved or the load failed. A saved
/// arrangement that the dock then refuses falls back to the built-in seed
/// as well (see [`BandAction::BuiltIn`]).
pub fn band_action(requested: Breakpoint, current: Breakpoint, loaded: Result<Option<String>, String>) -> (r:
    BandAction)
    ensures
        requested != current ==> r == BandAction::Stale,
        requested == current ==> match loaded {
            Ok(Some(j)) => r == BandAction::Apply(j),
            _ => r == BandAction::BuiltIn,
        },
{
    if requested != current {
        return BandAction::Stale;
    }
    match loaded {
        Ok(Some(j)) => BandAction::Apply(j),
        _ => BandAction::BuiltIn,
    }
}

/// The seed group a band belongs to.
pub open spec fn group_of(bp: Breakpoint) -> Seq<char> {
    match bp {
        Breakpoint::Xl | Breakpoint::Lg => "xl"@,
        Breakpoint::Md => "md"@,
        Breakpoint::Sm | Breakpoint::Xs => "sm"@,
    }
}

/// Which group a band belongs to: 0 for xl/lg, 1 for md, 2 for sm/xs.
pub open spec fn group_index(bp: Breakpoint) -> int {
    match bp {
        Breakpoint::Xl | Breakpoint::Lg => 0,
        Breakpoint::Md => 1,
        Breakpoint::Sm | Breakpoint::Xs => 2,
    }
}

/// The seed key of a band: xl/lg share `xl`, sm/xs share `sm`.
pub fn seed_key(bp: Breakpoint) -> (r: &'static str)
    ensures
        r@ == group_of(bp),
{
    match bp {
        Breakpoint::Xl | Breakpoint::Lg => "xl",
        Breakpoint::Md => "md",
        Breakpoint::Sm | Breakpoint::Xs => "sm",
    }
}

/// The saved seeds: one optional arrangement per group, plus the default.
#[derive(Debug)]
pub struct Seeds {
    pub default: Option<serde_json::Value>,
    pub xl: Option<serde_json::Value>,
    pub md: Option<serde_json::Value>,
    pub sm: Option<serde_json::Value>,
}

/// The seed stored under a group's key.
pub open spec fn group_seed(s: Seeds, bp: Breakpoint) -> Option<serde_json::Value> {
    match bp {
        Breakpoint::Xl | Breakpoint::Lg => s.xl,
        Breakpoint::Md => s.md,
        Breakpoint::Sm | Breakpoint::Xs => s.sm,
    }
}

/// The seed a band opens onto: its group's, else the default.
pub open spec fn seed_for(s: Seeds, bp: Breakpoint) -> Option<serde_json::Value> {
    match group_seed(s, bp) {
        Some(v) => Some(v),
        None => s.default,
    }
}

/// A copy of a JSON value (`serde_json::Value::clone`), equal to the value copied.
#[verifier::external_body]
fn json_clone(v: &serde_json::Value) -> (r: serde_json::Value)
    ensures
        r == *v,
{
    v.clone()
}

fn clone_opt(v: &Option<serde_json::Value>) -> (r: Option<serde_json::Value>)
    ensures
        r == *v,
{
    match v {
        Some(x) => Some(json_clone(x)),
        None => None,
    }
}

impl Seeds {
/// No seeds saved yet.
    pub fn new() -> (r: Seeds)
        ensures
            r.default is None && r.xl is None && r.md is None && r.sm is None,
    {
        Seeds { default: None, xl: None, md: None, sm: None }
    }

    /// The arrangement a band opens onto: its group's seed, falling back to
    /// the default one.
    pub fn for_breakpoint(&self, bp: Breakpoint) -> (r: Option<serde_json::Value>)
        ensures
            r == seed_for(*self, bp),
    {
        let own = match bp {
            Breakpoint::Xl | Breakpoint::Lg => clone_opt(&self.xl),
            Breakpoint::Md => clone_opt(&self.md),
            Breakpoint::Sm | Breakpoint::Xs => clone_opt(&self.sm),
        };
        match own {
            Some(v) => Some(v),
            None => clone_opt(&self.default),
        }
    }

    /// Saves `layout` as its band group's seed. An `xl`-group save also
    /// becomes the default seed.
    pub fn record(&mut self, bp: Breakpoint, layout: serde_json::Value)
        ensures
            final(self).default == (match bp {
                Breakpoint::Xl | Breakpoint::Lg => Some(layout),
                _ => old(self).default,
            }),
            final(self).xl == (match bp {
                Breakpoint::Xl | Breakpoint::Lg => Some(layout),
                _ => old(self).xl,
            }),
            final(self).md == (match bp {
                Breakpoint::Md => Some(layout),
                _ => old(self).md,
            }),
            final(self).sm == (match bp {
                Breakpoint::Sm | Breakpoint::Xs => Some(layout),
                _ => old(self).sm,
            }),
    {
        match bp {
            Breakpoint::Xl | Breakpoint::Lg => {
                self.default = Some(json_clone(&layout));
                self.xl = Some(layout);
            },
            Breakpoint::Md => {
                self.md = Some(layout);
            },
            Breakpoint::Sm | Breakpoint::Xs => {
                self.sm = Some(layout);
            },
        }
    }
}

/// What a saved seed is read back as, after a save under `saved`: the band
/// that was saved (and every band of its group) opens onto the saved
/// arrangement.
pub proof fn lemma_save_then_load(s: Seeds, saved: Breakpoint, layout: serde_json::Value, t: Seeds, read: Breakpoint)
    requires
        t.default == (match saved {
            Breakpoint::Xl | Breakpoint::Lg => Some(layout),
            _ => s.default,
        }),
        t.xl == (match saved {
            Breakpoint::Xl | Breakpoint::Lg => Some(layout),
            _ => s.xl,
        }),
        t.md == (match saved {
            Breakpoint::Md => Some(layout),
            _ => s.md,
        }),
        t.sm == (match saved {
            Breakpoint::Sm | Breakpoint::Xs => Some(layout),
            _ => s.sm,
        }),
        group_index(read) == group_index(saved),
    ensures
        seed_for(t, read) == Some(layout),
{
}

/// An `xl` save also seeds every group that has no seed of its own.
pub proof fn lemma_xl_save_is_default(s: Seeds, layout: serde_json::Value, t: Seeds, read: Breakpoint)
    requires
        t.default == Some(layout),
        t.xl == Some(layout),
        t.md == s.md,
        t.sm == s.sm,
        group_seed(s, read) is None || group_index(read) == 0,
    ensures
        seed_for(t, read) == Some(layout),
{
}


/// What `serde_json::from_str::<serde_json::Value>` makes of `text`: the
/// error's text, or the value together with its entries when it is an object.
pub uninterp spec fn parsed_json(text: Seq<char>) -> Result<
    (serde_json::Value, Option<Seq<(Seq<char>, serde_json::Value)>>),
    Seq<char>,
>;

/// The plain form of what [`parse_json`] hands back.
pub open spec fn parsed_view(
    p: Result<(serde_json::Value, Option<Vec<(String, serde_json::Value)>>), String>,
) -> Result<(serde_json::Value, Option<Seq<(Seq<char>, serde_json::Value)>>), Seq<char>> {
    match p {
        Ok((v, Some(es))) => Ok((v, Some(es@.map_values(|e: (String, serde_json::Value)| (e.0@, e.1))))),
        Ok((v, None)) => Ok((v, None)),
        Err(m) => Err(m@),
    }
}

/// Parses JSON text (`serde_json::from_str::<serde_json::Value>`), and
/// lists the entries when the value is an object. An object's keys are
/// distinct.
#[verifier::external_body]
fn parse_json(text: &str) -> (r: Result<(serde_json::Value, Option<Vec<(String, serde_json::Value)>>), String>)
    ensures
        parsed_view(r) == parsed_json(text@),
        r matches Ok((_, Some(es))) ==> forall|i: int, j: int|
            0 <= i < j < es@.len() ==> es@[i].0@ != es@[j].0@,
{
    match serde_json::from_str::<serde_json::Value>(text) {
        Err(e) => Err(e.to_string()),
        Ok(v) => {
            let entries = match &v {
                serde_json::Value::Object(m) => Some(m.iter().map(|(k, x)| (k.clone(), x.clone())).collect()),
                _ => None,
            };
            Ok((v, entries))
        },
    }
}

/// The value under `key` (the last entry with that key).
pub open spec fn lookup(es: Seq<(Seq<char>, serde_json::Value)>, key: Seq<char>) -> Option<serde_json::Value>
    decreases es.len(),
{
    if es.len() == 0 {
        None
    } else if es.last().0 == key {
        Some(es.last().1)
    } else {
        lookup(es.drop_last(), key)
    }
}

/// A key that is neither a seed group, the default, nor a retired per-band key.
pub open spec fn unknown_key(k: Seq<char>) -> bool {
    k != "default"@ && k != "xl"@ && k != "md"@ && k != "sm"@ && k != "lg"@ && k != "xs"@
}

/// The first of two optional values that is present.
pub open spec fn either(a: Option<serde_json::Value>, b: Option<serde_json::Value>) -> Option<serde_json::Value> {
    match a {
        Some(v) => Some(v),
        None => b,
    }
}

/// The refusal of a file that holds the unknown key `k`.
pub open spec fn unknown_key_text(k: Seq<char>) -> Seq<char> {
    "layout file: unknown seed key `"@ + k + "`"@
}

/// The seeds a file's entries describe, or the rejection: a file with a
/// top-level `version` is one bare arrangement (the old format) and becomes
/// the default; retired per-band keys fold into their group (the group's own
/// save winning); any other unknown key rejects the file, naming the first
/// in text order.
pub open spec fn seeds_match(
    whole: serde_json::Value,
    es: Seq<(Seq<char>, serde_json::Value)>,
    r: Result<Seeds, String>,
) -> bool {
    if lookup(es, "version"@) is Some {
        r matches Ok(s) && s.default == Some(whole) && s.xl is None && s.md is None && s.sm is None
    } else if exists|i: int| 0 <= i < es.len() && #[trigger] unknown_key(es[i].0) {
        r matches Err(t) && exists|i: int|
            0 <= i < es.len() && #[trigger] unknown_key(es[i].0) && t@ == unknown_key_text(es[i].0) && forall|j: int|
                0 <= j < es.len() && #[trigger] unknown_key(es[j].0) ==> !text_lt(es[j].0, es[i].0)
    } else {
        r matches Ok(s) && s.default == lookup(es, "default"@) && s.xl == either(lookup(es, "xl"@), lookup(es, "lg"@))
            && s.md == lookup(es, "md"@) && s.sm == either(lookup(es, "sm"@), lookup(es, "xs"@))
    }
}

fn is_unknown(k: &str) -> (r: bool)
    ensures
        r == unknown_key(k@),
{
    !(same_text(k, "default") || same_text(k, "xl") || same_text(k, "md") || same_text(k, "sm")
        || same_text(k, "lg") || same_text(k, "xs"))
}

proof fn lemma_lookup_step(es: Seq<(Seq<char>, serde_json::Value)>, i: int, key: Seq<char>)
    requires
        0 <= i < es.len(),
    ensures
        lookup(es.subrange(0, i + 1), key) == if es[i].0 == key {
            Some(es[i].1)
        } else {
            lookup(es.subrange(0, i), key)
        },
{
    assert(es.subrange(0, i + 1).drop_last() =~= es.subrange(0, i));
}

/// Reads the seeds out of a parsed layout file.
pub fn seeds_from_parsed(
    parsed: Result<(serde_json::Value, Option<Vec<(String, serde_json::Value)>>), String>,
) -> (r: Result<Seeds, String>)
    ensures
        match parsed_view(parsed) {
            Err(m) => r matches Err(t) && t@ == "layout file: "@ + m,
            Ok((_, None)) => r matches Err(t) && t@ == "layout file: expected an object"@,
            Ok((whole, Some(es))) => seeds_match(whole, es, r),
        },
{
    let (whole, entries) = match parsed {
        Err(m) => {
            return Err("layout file: ".to_owned().concat(m.as_str()));
        },
        Ok((v, None)) => {
            return Err("layout file: expected an object".to_owned());
        },
        Ok((v, Some(es))) => (v, es),
    };
    let ghost es = entries@.map_values(|e: (String, serde_json::Value)| (e.0@, e.1));
    let mut version = false;
    let mut default: Option<serde_json::Value> = None;
    let mut xl: Option<serde_json::Value> = None;
    let mut md: Option<serde_json::Value> = None;
    let mut sm: Option<serde_json::Value> = None;
    let mut lg: Option<serde_json::Value> = None;
    let mut xs: Option<serde_json::Value> = None;
    let mut worst: Option<usize> = None;
    let mut i: usize = 0;
    proof {
        assert(es.subrange(0, 0) =~= Seq::<(Seq<char>, serde_json::Value)>::empty());
    }
    while i < entries.len()
        invariant
            i <= entries@.len(),
            es.len() == entries@.len(),
            forall|q: int| 0 <= q < es.len() ==> #[trigger] es[q] == (entries@[q].0@, entries@[q].1),
            version == (lookup(es.subrange(0, i as int), "version"@) is Some),
            default == lookup(es.subrange(0, i as int), "default"@),
            xl == lookup(es.subrange(0, i as int), "xl"@),
            md == lookup(es.subrange(0, i as int), "md"@),
            sm == lookup(es.subrange(0, i as int), "sm"@),
            lg == lookup(es.subrange(0, i as int), "lg"@),
            xs == lookup(es.subrange(0, i as int), "xs"@),
            match worst {
                Some(b) => b < i && unknown_key(es[b as int].0) && forall|j: int|
                    0 <= j < i && #[trigger] unknown_key(es[j].0) ==> !text_lt(es[j].0, es[b as int].0),
                None => forall|j: int| 0 <= j < i ==> !#[trigger] unknown_key(es[j].0),
            },
        decreases entries@.len() - i,
    {
        proof {
            lemma_lookup_step(es, i as int, "version"@);
            lemma_lookup_step(es, i as int, "default"@);
            lemma_lookup_step(es, i as int, "xl"@);
            lemma_lookup_step(es, i as int, "md"@);
            lemma_lookup_step(es, i as int, "sm"@);
            lemma_lookup_step(es, i as int, "lg"@);
            lemma_lookup_step(es, i as int, "xs"@);
            assert(es[i as int] == (entries@[i as int].0@, entries@[i as int].1));
            crate::text::lemma_text_lt_irreflexive(es[i as int].0);
        }
        let k = entries[i].0.as_str();
        let v = &entries[i].1;
        if same_text(k, "version") {
            version = true;
        }
        if same_text(k, "default") {
            default = Some(json_clone(v));
        }
        if same_text(k, "xl") {
            xl = Some(json_clone(v));
        }
        if same_text(k, "md") {
            md = Some(json_clone(v));
        }
        if same_text(k, "sm") {
            sm = Some(json_clone(v));
        }
        if same_text(k, "lg") {
            lg = Some(json_clone(v));
        }
        if same_text(k, "xs") {
            xs = Some(json_clone(v));
        }
        if is_unknown(k) {
            match worst {
                None => {
                    worst = Some(i);
                },
                Some(b) => {
                    if text_less(k, entries[b].0.as_str()) {
                        proof {
                            assert forall|j: int|
                                0 <= j < i + 1 && #[trigger] unknown_key(es[j].0) implies !text_lt(es[j].0, es[i as int].0)
                            by {
                                if j < i && text_lt(es[j].0, es[i as int].0) {
                                    crate::text::lemma_text_lt_trans(es[j].0, es[i as int].0, es[b as int].0);
                                }
                                if j == i {
                                    crate::text::lemma_text_lt_irreflexive(es[j].0);
                                }
                            }
                        }
                        worst = Some(i);
                    }
                },
            }
        }
        i = i + 1;
    }
    proof {
        assert(es.subrange(0, es.len() as int) =~= es);
    }
    if version {
        return Ok(Seeds { default: Some(whole), xl: None, md: None, sm: None });
    }
    match worst {
        Some(b) => {
            let msg = "layout file: unknown seed key `".to_owned().concat(entries[b].0.as_str()).concat("`");
            Err(msg)
        },
        None => {
            let xl = match xl {
                Some(v) => Some(v),
                None => lg,
            };
            let sm = match sm {
                Some(v) => Some(v),
                None => xs,
            };
            Ok(Seeds { default, xl, md, sm })
        },
    }
}

/// Reads the seeds out of a layout file's text.
pub fn parse_seeds(text: &str) -> (r: Result<Seeds, String>)
    ensures
        match parsed_json(text@) {
            Err(m) => r matches Err(t) && t@ == "layout file: "@ + m,
            Ok((_, None)) => r matches Err(t) && t@ == "layout file: expected an object"@,
            Ok((whole, Some(es))) => seeds_match(whole, es, r),
        },
{
    seeds_from_parsed(parse_json(text))
}


/// Reads a dock arrangement to be saved: any JSON value.
pub fn parse_layout(json: &str) -> (r: Result<serde_json::Value, String>)
    ensures
        match parsed_json(json@) {
            Ok((v, _)) => r == Ok::<serde_json::Value, String>(v),
            Err(m) => r matches Err(t) && t@ == "layout not json: "@ + m,
        },
{
    match parse_json(json) {
        Ok((v, _)) => Ok(v),
        Err(m) => Err("layout not json: ".to_owned().concat(m.as_str())),
    }
}

} // verus!
