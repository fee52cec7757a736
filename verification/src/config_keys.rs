//! Warnings for the unknown keys of `knot.toml`: its top-level keys and the
//! keys of its `[document]` and `[execution]` sections. Unknown keys are
//! ignored; the warnings are shown to the user.
use crate::config::{suggestion, suggestion_for, unknown_key_message, unknown_key_text};
use crate::text::{chars_of, push_str, same_chars, spells, string_of};
use vstd::prelude::*;

verus! {

/// Name for what `toml::from_str::<toml::Table>` makes of a `knot.toml`
/// text: its top-level keys in the order the table yields them, each with
/// the keys of its value when that value is a table; `None` when the text
/// is no TOML document.
pub uninterp spec fn toml_table_keys(text: Seq<char>) -> Option<
    Seq<(Seq<char>, Option<Seq<Seq<char>>>)>,
>;

/// The keys as text.
pub open spec fn keys_view(v: Seq<(String, Option<Vec<String>>)>) -> Seq<
    (Seq<char>, Option<Seq<Seq<char>>>),
> {
    v.map_values(
        |e: (String, Option<Vec<String>>)|
            (
                e.0@,
                match e.1 {
                    Some(ks) => Some(ks@.map_values(|k: String| k@)),
                    None => None,
                },
            ),
    )
}

/// The top-level keys of a `knot.toml` text, each with the keys of its
/// value when that value is a table.
///
/// Parses the text with `toml::from_str` into a `toml::Table` and lists its
/// entries; the contract only names the result.
#[verifier::external_body]
fn top_level_keys(text: &str) -> (r: Option<Vec<(String, Option<Vec<String>>)>>)
    ensures
        match r {
            Some(v) => toml_table_keys(text@) == Some(keys_view(v@)),
            None => toml_table_keys(text@) is None,
        },
{
    let table: toml::Table = toml::from_str(text).ok()?;
    Some(
        table.iter().map(|(k, v)| (k.clone(), v.as_table().map(|t| t.keys().cloned().collect()))).collect(),
    )
}

/// The sections of `knot.toml`.
pub open spec fn sections() -> Seq<&'static str> {
    seq![
        "tools",
        "document",
        "execution",
        "chunk-defaults",
        "codly",
        "r-chunks",
        "python-chunks",
        "r-error",
        "python-error",
    ]
}

/// Whether `key` is one of `known`.
pub open spec fn is_known(key: Seq<char>, known: Seq<&str>) -> bool {
    exists|i: int| 0 <= i < known.len() && (#[trigger] known[i])@ == key
}

/// Warning for the `[helpers]` section.
pub open spec fn helpers_text() -> Seq<char> {
    "knot.toml: the [helpers] section is no longer used (the Knot Typst library is embedded) and is ignored."@
}

/// Warning for an unknown section.
pub open spec fn unknown_section_text(key: Seq<char>) -> Seq<char> {
    "knot.toml: unknown section ["@ + key + "] is ignored."@ + match suggestion_for(
        key,
        sections(),
    ) {
        Some(s) => " Did you mean ["@ + s + "]?"@,
        None => Seq::empty(),
    }
}

/// Warnings for the top-level entries of `keys`, in order.
pub open spec fn top_warnings(keys: Seq<(Seq<char>, Option<Seq<Seq<char>>>)>) -> Seq<Seq<char>>
    decreases keys.len(),
{
    if keys.len() == 0 {
        Seq::empty()
    } else {
        let rest = top_warnings(keys.drop_last());
        let (k, sub) = keys.last();
        if k == "helpers"@ {
            rest.push(helpers_text())
        } else if !is_known(k, sections()) {
            rest.push(
                if sub is Some {
                    unknown_section_text(k)
                } else {
                    unknown_key_text(k, "at the top level"@, sections())
                },
            )
        } else {
            rest
        }
    }
}

/// The keys of the table `section` among `keys`, if it is a table.
pub open spec fn section_keys(keys: Seq<(Seq<char>, Option<Seq<Seq<char>>>)>, section: Seq<char>) -> Option<
    Seq<Seq<char>>,
>
    decreases keys.len(),
{
    if keys.len() == 0 {
        None
    } else if keys[0].0 == section {
        keys[0].1
    } else {
        section_keys(keys.drop_first(), section)
    }
}

/// Warnings for the keys of a section that are not `known`, in order.
pub open spec fn unknown_in(ks: Seq<Seq<char>>, section: Seq<char>, known: Seq<&str>) -> Seq<
    Seq<char>,
>
    decreases ks.len(),
{
    if ks.len() == 0 {
        Seq::empty()
    } else {
        let rest = unknown_in(ks.drop_last(), section, known);
        if is_known(ks.last(), known) {
            rest
        } else {
            rest.push(unknown_key_text(ks.last(), "in ["@ + section + "]"@, known))
        }
    }
}

/// Warnings for the unknown keys of a section, when it is a table.
pub open spec fn section_warnings(
    keys: Seq<(Seq<char>, Option<Seq<Seq<char>>>)>,
    section: Seq<char>,
    known: Seq<&str>,
) -> Seq<Seq<char>> {
    match section_keys(keys, section) {
        Some(ks) => unknown_in(ks, section, known),
        None => Seq::empty(),
    }
}

/// Warnings for the unknown keys of a `knot.toml` whose entries are `keys`.
pub open spec fn config_key_warnings(keys: Seq<(Seq<char>, Option<Seq<Seq<char>>>)>) -> Seq<
    Seq<char>,
> {
    top_warnings(keys) + section_warnings(keys, "document"@, seq!["main", "includes"])
        + section_warnings(keys, "execution"@, seq!["timeout-secs"])
}

/// Whether `key` is one of `known`.
fn known_key(key: &str, known: &Vec<&str>) -> (r: bool)
    ensures
        r == is_known(key@, known@),
{
    let k = chars_of(key);
    let mut i: usize = 0;
    while i < known.len()
        invariant
            i <= known@.len(),
            k@ == key@,
            forall|j: int| 0 <= j < i ==> (#[trigger] known@[j])@ != key@,
        decreases known.len() - i,
    {
        if same_chars(&chars_of(known[i]), &k) {
            return true;
        }
        i = i + 1;
    }
    false
}

/// The sections of `knot.toml`.
fn section_names() -> (r: Vec<&'static str>)
    ensures
        r@ == sections(),
{
    vec![
        "tools",
        "document",
        "execution",
        "chunk-defaults",
        "codly",
        "r-chunks",
        "python-chunks",
        "r-error",
        "python-error",
    ]
}

/// Warning for an unknown section.
fn unknown_section_message(key: &str, known: &Vec<&str>) -> (r: String)
    requires
        known@ == sections(),
    ensures
        r@ == unknown_section_text(key@),
{
    let mut m = chars_of("knot.toml: unknown section [");
    push_str(&mut m, key);
    push_str(&mut m, "] is ignored.");
    match suggestion(key, known) {
        Some(s) => {
            push_str(&mut m, " Did you mean [");
            push_str(&mut m, s);
            push_str(&mut m, "]?");
        },
        None => {},
    }
    string_of(&m)
}

/// Appends the warnings for the unknown keys of `section`, if it is a table.
fn push_section_warnings(
    out: &mut Vec<String>,
    keys: &Vec<(String, Option<Vec<String>>)>,
    section: &str,
    known: &Vec<&str>,
)
    ensures
        final(out)@.map_values(|w: String| w@) == old(out)@.map_values(|w: String| w@)
            + section_warnings(keys_view(keys@), section@, known@),
{
    let ghost kv = keys_view(keys@);
    let mut i: usize = 0;
    assert(kv.skip(0) =~= kv);
    while i < keys.len()
        invariant
            i <= keys@.len(),
            kv == keys_view(keys@),
            out@ == old(out)@,
            section_keys(kv, section@) == section_keys(kv.skip(i as int), section@),
        decreases keys.len() - i,
    {
        assert(kv.skip(i as int)[0] == kv[i as int]);
        assert(kv.skip(i as int).drop_first() =~= kv.skip(i + 1));
        if spells(&chars_of(keys[i].0.as_str()), section) {
            match &keys[i].1 {
                Some(ks) => {
                    let ghost start = out@.map_values(|w: String| w@);
                    let ghost ksv = ks@.map_values(|k: String| k@);
                    let mut j: usize = 0;
                    while j < ks.len()
                        invariant
                            j <= ks@.len(),
                            ksv == ks@.map_values(|k: String| k@),
                            out@.map_values(|w: String| w@) == start + unknown_in(
                                ksv.take(j as int),
                                section@,
                                known@,
                            ),
                        decreases ks.len() - j,
                    {
                        proof {
                            let t = ksv.take(j + 1);
                            assert(t.drop_last() =~= ksv.take(j as int));
                            assert(t.last() == ks@[j as int]@);
                        }
                        if !known_key(ks[j].as_str(), known) {
                            let mut place = chars_of("in [");
                            push_str(&mut place, section);
                            push_str(&mut place, "]");
                            let place_s = string_of(&place);
                            let w = unknown_key_message(ks[j].as_str(), place_s.as_str(), known);
                            let ghost before = out@;
                            out.push(w);
                            assert(out@.map_values(|w: String| w@) =~= before.map_values(
                                |w: String| w@,
                            ).push(w@));
                        }
                        j = j + 1;
                    }
                    assert(ksv.take(ks.len() as int) =~= ksv);
                },
                None => {},
            }
            return;
        }
        i = i + 1;
    }
    assert(out@.map_values(|w: String| w@) + Seq::<Seq<char>>::empty() =~= out@.map_values(
        |w: String| w@,
    ));
}

/// Warnings for the unknown top-level keys of a `knot.toml` whose entries
/// are `keys` (each with the keys of its value when it is a table), then
/// for the unknown keys of its `[document]` and `[execution]` sections. The
/// `[helpers]` section is reported as no longer used; `[codly]` is passed to
/// codly as it is.
pub fn unknown_config_keys(keys: &Vec<(String, Option<Vec<String>>)>) -> (r: Vec<String>)
    ensures
        r@.map_values(|w: String| w@) == config_key_warnings(keys_view(keys@)),
{
    let ghost kv = keys_view(keys@);
    let known = section_names();
    let mut out: Vec<String> = Vec::new();
    let mut i: usize = 0;
    while i < keys.len()
        invariant
            i <= keys@.len(),
            kv == keys_view(keys@),
            known@ == sections(),
            out@.map_values(|w: String| w@) == top_warnings(kv.take(i as int)),
        decreases keys.len() - i,
    {
        proof {
            let t = kv.take(i + 1);
            assert(t.drop_last() =~= kv.take(i as int));
            assert(t.last() == kv[i as int]);
        }
        let key = keys[i].0.as_str();
        let ghost before = out@;
        if spells(&chars_of(key), "helpers") {
            out.push(
                "knot.toml: the [helpers] section is no longer used (the Knot Typst library is embedded) and is ignored.".to_string(),
            );
            assert(out@.map_values(|w: String| w@) =~= before.map_values(|w: String| w@).push(
                helpers_text(),
            ));
        } else if !known_key(key, &known) {
            let w = match &keys[i].1 {
                Some(_) => unknown_section_message(key, &known),
                None => unknown_key_message(key, "at the top level", &known),
            };
            out.push(w);
            assert(out@.map_values(|w: String| w@) =~= before.map_values(|w: String| w@).push(
                w@,
            ));
        }
        i = i + 1;
    }
    assert(kv.take(keys.len() as int) =~= kv);
    let document_keys = vec!["main", "includes"];
    assert(document_keys@ == seq!["main", "includes"]);
    let execution_keys = vec!["timeout-secs"];
    assert(execution_keys@ == seq!["timeout-secs"]);
    push_section_warnings(&mut out, keys, "document", &document_keys);
    push_section_warnings(&mut out, keys, "execution", &execution_keys);
    out
}

/// Warnings for the unknown keys of a `knot.toml` text (see
/// `unknown_config_keys`), or `None` when the text is no TOML document.
pub fn config_warnings(text: &str) -> (r: Option<Vec<String>>)
    ensures
        match toml_table_keys(text@) {
            Some(keys) => r matches Some(v) && v@.map_values(|w: String| w@) == config_key_warnings(
                keys,
            ),
            None => r is None,
        },
{
    match top_level_keys(text) {
        Some(keys) => Some(unknown_config_keys(&keys)),
        None => None,
    }
}

} // verus!
