//! Supported languages and the default values of the Knot configuration.
use crate::text::{ascii_lower, chars_of, extend, join, join_chars, push_str, spells, string_of, to_ascii_lower};
use vstd::prelude::*;

verus! {

/// A programming language whose chunks Knot executes.
#[derive(Debug, Clone, Copy, PartialEq, Eq, Hash, Structural)]
pub enum Language {
    /// The R statistical computing language.
    R,
    /// The Python programming language.
    Python,
}

/// Lower-case name of a language.
pub open spec fn language_name(l: Language) -> Seq<char> {
    match l {
        Language::R => "r"@,
        Language::Python => "python"@,
    }
}

/// The language a chunk tag names, compared without regard to ASCII case:
/// `r`, `python` and its alias `py`.
///
/// Lower-casing with Unicode rules (as `str::to_lowercase` does) gives the
/// same answer: no non-ASCII character lower-cases to a letter of these names.
pub open spec fn language_named(s: Seq<char>) -> Option<Language> {
    let l = ascii_lower(s);
    if l == "r"@ {
        Some(Language::R)
    } else if l == "python"@ || l == "py"@ {
        Some(Language::Python)
    } else {
        None
    }
}

/// Error for a tag that names no supported language.
pub open spec fn unsupported_language_error(s: Seq<char>) -> Seq<char> {
    "Unsupported language: '"@ + s + "'"@
}

/// The supported languages, in order.
pub open spec fn all_languages() -> Seq<Language> {
    seq![Language::R, Language::Python]
}

/// The names of the supported languages joined by " and ".
pub open spec fn supported_list() -> Seq<char> {
    join(all_languages().map_values(|l: Language| language_name(l)), " and "@)
}

/// Canonical name of a chunk tag: the language's name, or the tag itself.
pub open spec fn canonical_name(tag: Seq<char>) -> Seq<char> {
    match language_named(tag) {
        Some(l) => language_name(l),
        None => tag,
    }
}

/// Message shown for a chunk in a language Knot cannot execute.
pub open spec fn unsupported_message(language: Seq<char>) -> Seq<char> {
    "Unsupported language '"@ + language + "': Knot executes "@ + supported_list()
        + ". Add '#| eval: false' to display this code without running it."@
}

/// Warning shown on the first chunk of a chain whose session cannot be saved.
pub open spec fn non_reusable_message(language: Seq<char>) -> Seq<char> {
    "The "@ + language
        + " session after this chunk cannot be saved as a reusable snapshot: it holds objects that cannot be serialized, such as functions, classes or instances defined in the document. This chunk and the following "@
        + language
        + " chunks are therefore re-executed at every compilation. Delete such objects once they are no longer needed (with del), or disable "@
        + language + " snapshots in the document header (snapshots: {"@ + language
        + ": false})."@
}

impl Language {
    /// All supported languages.
    pub fn all() -> (r: Vec<Language>)
        ensures
            r@ == all_languages(),
    {
        let mut v: Vec<Language> = Vec::new();
        v.push(Language::R);
        v.push(Language::Python);
        v
    }

    /// The lower-case name of the language.
    pub fn as_str(&self) -> (r: &'static str)
        ensures
            r@ == language_name(*self),
    {
        match self {
            Language::R => "r",
            Language::Python => "python",
        }
    }

    /// The language named by `s`, without regard to ASCII case; `py` is an
    /// alias of `python`. Any other text, padded names included, is refused.
    pub fn parse(s: &str) -> (r: Result<Language, String>)
        ensures
            r is Ok <==> language_named(s@) is Some,
            r matches Ok(l) ==> language_named(s@) == Some(l),
            r matches Err(m) ==> m@ == unsupported_language_error(s@),
    {
        let chars = chars_of(s);
        let lower = to_ascii_lower(&chars);
        if spells(&lower, "r") {
            Ok(Language::R)
        } else if spells(&lower, "python") || spells(&lower, "py") {
            Ok(Language::Python)
        } else {
            let mut m: Vec<char> = Vec::new();
            push_str(&mut m, "Unsupported language: '");
            push_str(&mut m, s);
            push_str(&mut m, "'");
            Err(string_of(&m))
        }
    }
}

impl std::str::FromStr for Language {
    type Err = String;

    fn from_str(s: &str) -> (r: Result<Language, String>)
        ensures
            r is Ok <==> language_named(s@) is Some,
            r matches Ok(l) ==> language_named(s@) == Some(l),
            r matches Err(m) ==> m@ == unsupported_language_error(s@),
    {
        Language::parse(s)
    }
}

/// Canonical name of a language tag as written in a chunk header or inline
/// expression (`py`, `Python` become `python`, `R` becomes `r`). Unknown tags
/// are returned unchanged.
pub fn canonical_language(tag: &str) -> (r: String)
    ensures
        r@ == canonical_name(tag@),
{
    match Language::parse(tag) {
        Ok(language) => {
            let v = chars_of(language.as_str());
            string_of(&v)
        },
        Err(_) => {
            let v = chars_of(tag);
            string_of(&v)
        },
    }
}

/// Error shown for a language Knot cannot execute; `None` when the language
/// is supported.
pub fn unsupported_language_message(language: &str) -> (r: Option<String>)
    ensures
        r is None <==> language_named(language@) is Some,
        r matches Some(m) ==> m@ == unsupported_message(language@),
{
    if Language::parse(language).is_ok() {
        return None;
    }
    let all = Language::all();
    let mut names: Vec<Vec<char>> = Vec::new();
    let mut i: usize = 0;
    while i < all.len()
        invariant
            i <= all.len(),
            all@ == all_languages(),
            names@.len() == i,
            forall|k: int| 0 <= k < i ==> #[trigger] names@[k]@ == language_name(all@[k]),
        decreases all.len() - i,
    {
        names.push(chars_of(all[i].as_str()));
        i = i + 1;
    }
    let list = join_chars(&names, " and ");
    proof {
        assert(names@.map_values(|p: Vec<char>| p@) =~= all_languages().map_values(
            |l: Language| language_name(l),
        ));
    }
    let mut m: Vec<char> = Vec::new();
    push_str(&mut m, "Unsupported language '");
    push_str(&mut m, language);
    push_str(&mut m, "': Knot executes ");
    extend(&mut m, &list);
    push_str(&mut m, ". Add '#| eval: false' to display this code without running it.");
    Some(string_of(&m))
}

/// Warning shown on the first chunk of a language chain whose session could
/// not be saved as a reusable snapshot.
pub fn non_reusable_snapshot_message(language: &str) -> (r: String)
    ensures
        r@ == non_reusable_message(language@),
{
    let mut m: Vec<char> = Vec::new();
    push_str(&mut m, "The ");
    push_str(&mut m, language);
    push_str(
        &mut m,
        " session after this chunk cannot be saved as a reusable snapshot: it holds objects that cannot be serialized, such as functions, classes or instances defined in the document. This chunk and the following ",
    );
    push_str(&mut m, language);
    push_str(
        &mut m,
        " chunks are therefore re-executed at every compilation. Delete such objects once they are no longer needed (with del), or disable ",
    );
    push_str(&mut m, language);
    push_str(&mut m, " snapshots in the document header (snapshots: {");
    push_str(&mut m, language);
    push_str(&mut m, ": false}).");
    string_of(&m)
}

/// Default values for chunk options, execution and system constants.
pub struct Defaults;

/// Seconds allowed, by default, for one R or Python chunk.
pub const DEFAULT_EXECUTION_TIMEOUT_SECS: u64 = 30;

/// Seconds always allowed for an interpreter to start and load the helpers.
pub const INTERPRETER_STARTUP_TIMEOUT_SECS: u64 = 60;

impl Defaults {
    /// Boundary marker that delimits interpreter output streams.
    pub const BOUNDARY_MARKER: &'static str = "---KNOT_CHUNK_BOUNDARY---";

    /// Name of the cache directory.
    pub const CACHE_DIR_NAME: &'static str = ".knot_cache";

    /// Directory of files generated by the languages (plots, tables).
    pub const LANGUAGE_FILES_DIR: &'static str = "_knot_files";

    /// Default timeout (seconds) for the execution of one chunk.
    pub const DEFAULT_EXECUTION_TIMEOUT_SECS: u64 = 30;

    /// Minimum time (seconds) allowed for an interpreter to start.
    pub const INTERPRETER_STARTUP_TIMEOUT_SECS: u64 = 60;

    /// All supported languages.
    pub fn supported_languages() -> (r: Vec<Language>)
        ensures
            r@ == all_languages(),
    {
        Language::all()
    }
}

/// Time allowed (in nanoseconds) for an interpreter to start: the chunk
/// timeout, but never less than the startup minimum.
pub fn startup_timeout(chunk_timeout_nanos: u128) -> (r: u128)
    ensures
        r == if chunk_timeout_nanos >= INTERPRETER_STARTUP_TIMEOUT_SECS * 1_000_000_000 {
            chunk_timeout_nanos as int
        } else {
            INTERPRETER_STARTUP_TIMEOUT_SECS * 1_000_000_000
        },
{
    let minimum: u128 = (INTERPRETER_STARTUP_TIMEOUT_SECS as u128) * 1_000_000_000;
    if chunk_timeout_nanos >= minimum {
        chunk_timeout_nanos
    } else {
        minimum
    }
}

} // verus!
