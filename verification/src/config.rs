//! The project configuration (`knot.toml`): its model, and the warnings for
//! keys that Knot does not know, with a suggestion for likely typos.
use crate::ast::{options_view, resolve_v, resolved_view, Chunk, ChunkOptions, OptionsV, ResolvedChunkOptions, ResolvedV};
use crate::cache::{copy_strings};
use crate::compiler::ChunkExecutionState;
use crate::defaults::{language_named, Language, DEFAULT_EXECUTION_TIMEOUT_SECS};
use crate::text::{
    chars_lt, chars_of, has_prefix, push_str, seq_lt, starts_with, string_of, to_lowercase,
    unicode_lowercase,
};
use vstd::prelude::*;
use vstd::string::StringSliceAdditionalSpecFns;

verus! {

// ---------------------------------------------------------------------------
// Edit distance
// ---------------------------------------------------------------------------

/// Smallest of three numbers.
pub open spec fn min3(x: nat, y: nat, z: nat) -> nat {
    if x <= y && x <= z {
        x
    } else if y <= z {
        y
    } else {
        z
    }
}

/// Levenshtein distance: the fewest insertions, deletions and substitutions
/// of characters that turn `a` into `b`.
pub open spec fn levenshtein(a: Seq<char>, b: Seq<char>) -> nat
    decreases a.len() + b.len(),
{
    if a.len() == 0 {
        b.len()
    } else if b.len() == 0 {
        a.len()
    } else {
        min3(
            levenshtein(a.drop_last(), b.drop_last()) + (if a.last() == b.last() {
                0nat
            } else {
                1nat
            }),
            levenshtein(a.drop_last(), b) + 1,
            levenshtein(a, b.drop_last()) + 1,
        )
    }
}

/// The distance never exceeds the longer length.
pub proof fn lemma_levenshtein_bound(a: Seq<char>, b: Seq<char>)
    ensures
        levenshtein(a, b) <= if a.len() >= b.len() {
            a.len()
        } else {
            b.len()
        },
    decreases a.len() + b.len(),
{
    if a.len() > 0 && b.len() > 0 {
        lemma_levenshtein_bound(a.drop_last(), b.drop_last());
    }
}

/// Levenshtein distance between `a` and `b`, computed one row at a time.
pub fn edit_distance(a: &str, b: &str) -> (d: usize)
    ensures
        d == levenshtein(a@, b@),
{
    let av = chars_of(a);
    let bv = chars_of(b);
    let n = bv.len();
    let mut row: Vec<usize> = Vec::new();
    row.push(0);
    let mut j: usize = 0;
    while j < n
        invariant
            j <= n,
            n == bv@.len(),
            row@.len() == j + 1,
            forall|k: int| 0 <= k <= j ==> #[trigger] row@[k] == levenshtein(Seq::empty(), bv@.take(k)),
        decreases n - j,
    {
        j = j + 1;
        row.push(j);
    }
    assert(av@.take(0) =~= Seq::<char>::empty());
    let mut i: usize = 0;
    while i < av.len()
        invariant
            i <= av@.len(),
            n == bv@.len(),
            row@.len() == n + 1,
            forall|k: int|
                0 <= k <= n ==> #[trigger] row@[k] == levenshtein(av@.take(i as int), bv@.take(k)),
        decreases av.len() - i,
    {
        let ca = av[i];
        let ghost ai = av@.take(i as int);
        let ghost ai1 = av@.take(i + 1);
        proof {
            assert(ai1.drop_last() == ai);
            assert(ai1.last() == ca);
            assert(bv@.take(0) =~= Seq::<char>::empty());
        }
        let mut previous = row[0];
        row.set(0, i + 1);
        let mut k: usize = 0;
        while k < n
            invariant
                k <= n,
                n == bv@.len(),
                i < av@.len(),
                ai == av@.take(i as int),
                ai1 == av@.take(i + 1),
                ai1.drop_last() == ai,
                ai1.last() == ca,
                row@.len() == n + 1,
                previous == levenshtein(ai, bv@.take(k as int)),
                forall|m: int| 0 <= m <= k ==> #[trigger] row@[m] == levenshtein(ai1, bv@.take(m)),
                forall|m: int| k < m <= n ==> #[trigger] row@[m] == levenshtein(ai, bv@.take(m)),
            decreases n - k,
        {
            let cb = bv[k];
            let current = row[k + 1];
            let cost: usize = if ca != cb {
                1
            } else {
                0
            };
            proof {
                let bk1 = bv@.take(k + 1);
                assert(bk1.drop_last() == bv@.take(k as int));
                assert(bk1.last() == cb);
                lemma_levenshtein_bound(ai, bv@.take(k as int));
                assert(ai.len() == i);
                assert(bv@.take(k as int).len() == k);
                lemma_levenshtein_bound(ai1, bv@.take(k as int));
                lemma_levenshtein_bound(ai, bk1);
                assert(av@.len() == av.len());
                assert(previous <= usize::MAX - 1);
            }
            let diag = previous + cost;
            let up = current.saturating_add(1);
            let left = row[k].saturating_add(1);
            let best = if diag <= up && diag <= left {
                diag
            } else if up <= left {
                up
            } else {
                left
            };
            proof {
                lemma_levenshtein_bound(ai1, bv@.take(k + 1));
            }
            row.set(k + 1, best);
            previous = current;
            k = k + 1;
        }
        i = i + 1;
    }
    assert(av@.take(av@.len() as int) == av@);
    assert(bv@.take(n as int) == bv@);
    row[n]
}

// ---------------------------------------------------------------------------
// Suggestions for unknown keys
// ---------------------------------------------------------------------------

/// A key as compared with the known names: lower case, `_` read as `-`.
pub open spec fn normalized_key(key: Seq<char>) -> Seq<char> {
    unicode_lowercase(key).map_values(|c: char| if c == '_' { '-' } else { c })
}

/// Whether a name at distance `d` is close enough to be a typo of a known
/// name of `len` bytes: at most 2, or a quarter of the name's length.
pub open spec fn close_enough(d: nat, len: nat) -> bool {
    d <= if len / 4 >= 2 {
        len / 4
    } else {
        2
    }
}

/// Strict order of `(distance, name)` pairs, distance first.
pub open spec fn pair_lt(d1: nat, c1: Seq<char>, d2: nat, c2: Seq<char>) -> bool {
    d1 < d2 || (d1 == d2 && seq_lt(c1, c2))
}

/// Index, among the first `n` known names, of the closest name to `key`
/// that is close enough; the first such one on ties.
pub open spec fn best_among(key: Seq<char>, known: Seq<&str>, n: int) -> Option<int>
    decreases n,
{
    if n <= 0 {
        None
    } else {
        let prev = best_among(key, known, n - 1);
        let c = known[n - 1];
        let d = levenshtein(key, c@);
        if !close_enough(d, c.spec_bytes().len()) {
            prev
        } else {
            match prev {
                None => Some(n - 1),
                Some(p) => if pair_lt(d, c@, levenshtein(key, known[p]@), known[p]@) {
                    Some(n - 1)
                } else {
                    prev
                },
            }
        }
    }
}

/// The known name closest to `key`, when it is close enough to be a typo.
pub open spec fn suggestion_for(key: Seq<char>, known: Seq<&str>) -> Option<Seq<char>> {
    match best_among(normalized_key(key), known, known.len() as int) {
        Some(i) => Some(known[i]@),
        None => None,
    }
}

/// The candidate picked is one of the first `n` names.
pub proof fn lemma_best_among_bound(key: Seq<char>, known: Seq<&str>, n: int)
    ensures
        best_among(key, known, n) matches Some(i) ==> 0 <= i < n,
    decreases n,
{
    if n > 0 {
        lemma_best_among_bound(key, known, n - 1);
    }
}

/// `key` lower-cased with `_` replaced by `-`.
fn normalize_key(key: &str) -> (r: Vec<char>)
    ensures
        r@ == normalized_key(key@),
{
    let lower = to_lowercase(key);
    let v = chars_of(lower.as_str());
    let mut r: Vec<char> = Vec::new();
    let mut i: usize = 0;
    while i < v.len()
        invariant
            i <= v.len(),
            v@ == unicode_lowercase(key@),
            r@ == v@.take(i as int).map_values(|c: char| if c == '_' { '-' } else { c }),
        decreases v.len() - i,
    {
        let c = v[i];
        r.push(if c == '_' { '-' } else { c });
        i = i + 1;
        assert(v@.take(i as int).map_values(|c: char| if c == '_' { '-' } else { c })
            =~= v@.take((i - 1) as int).map_values(|c: char| if c == '_' { '-' } else { c }).push(
            if v@[i - 1] == '_' { '-' } else { v@[i - 1] },
        ));
    }
    assert(v@.take(v.len() as int) == v@);
    r
}

/// The closest known name, when it is close enough to be a typo: at an edit
/// distance of at most 2, or of a quarter of its length in bytes, from the key
/// lower-cased with `_` read as `-`. On equal distances the name that sorts
/// first is chosen.
pub fn suggestion<'a>(key: &str, known: &Vec<&'a str>) -> (r: Option<&'a str>)
    ensures
        r matches Some(s) ==> suggestion_for(key@, known@) == Some(s@),
        r is None ==> suggestion_for(key@, known@) is None,
{
    let norm = normalize_key(key);
    let norm_s = string_of(&norm);
    let mut best: Option<usize> = None;
    let mut best_d: usize = 0;
    let mut i: usize = 0;
    while i < known.len()
        invariant
            i <= known.len(),
            norm_s@ == normalized_key(key@),
            best_among(norm_s@, known@, i as int) == match best {
                Some(b) => Some(b as int),
                None => None::<int>,
            },
            best matches Some(b) ==> b < i && best_d == levenshtein(norm_s@, known@[b as int]@),
        decreases known.len() - i,
    {
        let c = known[i];
        let d = edit_distance(norm_s.as_str(), c);
        let len = c.as_bytes().len();
        let limit = if len / 4 >= 2 {
            len / 4
        } else {
            2
        };
        proof {
            assert(c@ == known@[i as int]@);
        }
        if d <= limit {
            match best {
                None => {
                    best = Some(i);
                    best_d = d;
                },
                Some(b) => {
                    let cv = chars_of(c);
                    let bv = chars_of(known[b]);
                    if d < best_d || (d == best_d && chars_lt(&cv, &bv)) {
                        best = Some(i);
                        best_d = d;
                    }
                },
            }
        }
        i = i + 1;
    }
    match best {
        Some(b) => Some(known[b]),
        None => None,
    }
}

/// Warning for an unknown key of `knot.toml`, with a suggestion when the key
/// is close to a known name.
pub open spec fn unknown_key_text(key: Seq<char>, place: Seq<char>, known: Seq<&str>) -> Seq<
    char,
> {
    let place = if starts_with(place, "["@) {
        "in "@ + place
    } else {
        place
    };
    "knot.toml: unknown key '"@ + key + "' "@ + place + " is ignored."@ + match suggestion_for(
        key,
        known,
    ) {
        Some(s) => " Did you mean '"@ + s + "'?"@,
        None => Seq::empty(),
    }
}

/// Warning for an unknown key; `place` is a section (`[document]`) or a
/// phrase (`at the top level`).
pub fn unknown_key_message(key: &str, place: &str, known: &Vec<&str>) -> (r: String)
    ensures
        r@ == unknown_key_text(key@, place@, known@),
{
    let place_v = chars_of(place);
    let bracket = chars_of("[");
    let mut m: Vec<char> = Vec::new();
    push_str(&mut m, "knot.toml: unknown key '");
    push_str(&mut m, key);
    push_str(&mut m, "' ");
    if has_prefix(&place_v, &bracket) {
        push_str(&mut m, "in ");
    }
    push_str(&mut m, place);
    push_str(&mut m, " is ignored.");
    match suggestion(key, known) {
        Some(s) => {
            push_str(&mut m, " Did you mean '");
            push_str(&mut m, s);
            push_str(&mut m, "'?");
        },
        None => {},
    }
    string_of(&m)
}


// ---------------------------------------------------------------------------
// Layered chunk options
// ---------------------------------------------------------------------------

/// `over` if it is set, else `base`.
pub open spec fn pick<T>(over: Option<T>, base: Option<T>) -> Option<T> {
    if over is Some {
        over
    } else {
        base
    }
}

/// `over` with every option it leaves unset taken from `base` (a list is
/// unset when it is empty).
pub open spec fn overlay_v(base: OptionsV, over: OptionsV) -> OptionsV {
    OptionsV {
        eval: pick(over.eval, base.eval),
        show: pick(over.show, base.show),
        cache: pick(over.cache, base.cache),
        caption: pick(over.caption, base.caption),
        depends: if over.depends.len() > 0 {
            over.depends
        } else {
            base.depends
        },
        fig_width: pick(over.fig_width, base.fig_width),
        fig_height: pick(over.fig_height, base.fig_height),
        dpi: pick(over.dpi, base.dpi),
        fig_format: pick(over.fig_format, base.fig_format),
        freeze: if over.freeze.len() > 0 {
            over.freeze
        } else {
            base.freeze
        },
        layout: pick(over.layout, base.layout),
        warnings_visibility: pick(over.warnings_visibility, base.warnings_visibility),
        gutter: pick(over.gutter, base.gutter),
        code_background: pick(over.code_background, base.code_background),
        code_stroke: pick(over.code_stroke, base.code_stroke),
        code_radius: pick(over.code_radius, base.code_radius),
        code_inset: pick(over.code_inset, base.code_inset),
        output_background: pick(over.output_background, base.output_background),
        output_stroke: pick(over.output_stroke, base.output_stroke),
        output_radius: pick(over.output_radius, base.output_radius),
        output_inset: pick(over.output_inset, base.output_inset),
        warning_background: pick(over.warning_background, base.warning_background),
        warning_stroke: pick(over.warning_stroke, base.warning_stroke),
        warning_radius: pick(over.warning_radius, base.warning_radius),
        warning_inset: pick(over.warning_inset, base.warning_inset),
        width_ratio: pick(over.width_ratio, base.width_ratio),
        align: pick(over.align, base.align),
    }
}

/// `over` with every option it leaves unset taken from `base`.
pub fn overlay(base: &ChunkOptions, over: &ChunkOptions) -> (r: ChunkOptions)
    ensures
        options_view(r) == overlay_v(options_view(*base), options_view(*over)),
{
    ChunkOptions {
        eval: if over.eval.is_some() {
            over.eval
        } else {
            base.eval
        },
        show: if over.show.is_some() {
            over.show
        } else {
            base.show
        },
        cache: if over.cache.is_some() {
            over.cache
        } else {
            base.cache
        },
        caption: if over.caption.is_some() {
            copy_opt_string(&over.caption)
        } else {
            copy_opt_string(&base.caption)
        },
        depends: if over.depends.len() > 0 {
            copy_strings(&over.depends)
        } else {
            copy_strings(&base.depends)
        },
        fig_width: if over.fig_width.is_some() {
            copy_opt_string(&over.fig_width)
        } else {
            copy_opt_string(&base.fig_width)
        },
        fig_height: if over.fig_height.is_some() {
            copy_opt_string(&over.fig_height)
        } else {
            copy_opt_string(&base.fig_height)
        },
        dpi: if over.dpi.is_some() {
            over.dpi
        } else {
            base.dpi
        },
        fig_format: if over.fig_format.is_some() {
            over.fig_format
        } else {
            base.fig_format
        },
        freeze: if over.freeze.len() > 0 {
            copy_strings(&over.freeze)
        } else {
            copy_strings(&base.freeze)
        },
        layout: if over.layout.is_some() {
            over.layout
        } else {
            base.layout
        },
        warnings_visibility: if over.warnings_visibility.is_some() {
            over.warnings_visibility
        } else {
            base.warnings_visibility
        },
        gutter: if over.gutter.is_some() {
            copy_opt_string(&over.gutter)
        } else {
            copy_opt_string(&base.gutter)
        },
        code_background: if over.code_background.is_some() {
            copy_opt_string(&over.code_background)
        } else {
            copy_opt_string(&base.code_background)
        },
        code_stroke: if over.code_stroke.is_some() {
            copy_opt_string(&over.code_stroke)
        } else {
            copy_opt_string(&base.code_stroke)
        },
        code_radius: if over.code_radius.is_some() {
            copy_opt_string(&over.code_radius)
        } else {
            copy_opt_string(&base.code_radius)
        },
        code_inset: if over.code_inset.is_some() {
            copy_opt_string(&over.code_inset)
        } else {
            copy_opt_string(&base.code_inset)
        },
        output_background: if over.output_background.is_some() {
            copy_opt_string(&over.output_background)
        } else {
            copy_opt_string(&base.output_background)
        },
        output_stroke: if over.output_stroke.is_some() {
            copy_opt_string(&over.output_stroke)
        } else {
            copy_opt_string(&base.output_stroke)
        },
        output_radius: if over.output_radius.is_some() {
            copy_opt_string(&over.output_radius)
        } else {
            copy_opt_string(&base.output_radius)
        },
        output_inset: if over.output_inset.is_some() {
            copy_opt_string(&over.output_inset)
        } else {
            copy_opt_string(&base.output_inset)
        },
        warning_background: if over.warning_background.is_some() {
            copy_opt_string(&over.warning_background)
        } else {
            copy_opt_string(&base.warning_background)
        },
        warning_stroke: if over.warning_stroke.is_some() {
            copy_opt_string(&over.warning_stroke)
        } else {
            copy_opt_string(&base.warning_stroke)
        },
        warning_radius: if over.warning_radius.is_some() {
            copy_opt_string(&over.warning_radius)
        } else {
            copy_opt_string(&base.warning_radius)
        },
        warning_inset: if over.warning_inset.is_some() {
            copy_opt_string(&over.warning_inset)
        } else {
            copy_opt_string(&base.warning_inset)
        },
        width_ratio: if over.width_ratio.is_some() {
            copy_opt_string(&over.width_ratio)
        } else {
            copy_opt_string(&base.width_ratio)
        },
        align: if over.align.is_some() {
            copy_opt_string(&over.align)
        } else {
            copy_opt_string(&base.align)
        },
    }
}

/// Options that set nothing.
pub fn no_options() -> (r: ChunkOptions)
    ensures
        options_view(r) == overlay_v(options_view(r), options_view(r)),
        forall|o: OptionsV| #[trigger] overlay_v(o, options_view(r)) == o,
{
    let r = ChunkOptions {
        eval: None,
        show: None,
        cache: None,
        caption: None,
        depends: Vec::new(),
        fig_width: None,
        fig_height: None,
        dpi: None,
        fig_format: None,
        freeze: Vec::new(),
        layout: None,
        warnings_visibility: None,
        gutter: None,
        code_background: None,
        code_stroke: None,
        code_radius: None,
        code_inset: None,
        output_background: None,
        output_stroke: None,
        output_radius: None,
        output_inset: None,
        warning_background: None,
        warning_stroke: None,
        warning_radius: None,
        warning_inset: None,
        width_ratio: None,
        align: None,
    };
    assert forall|o: OptionsV| #[trigger] overlay_v(o, options_view(r)) == o by {
        assert(options_view(r).depends =~= Seq::<String>::empty());
        assert(options_view(r).freeze =~= Seq::<String>::empty());
    }
    r
}

/// Copy of an optional string.
fn copy_opt_string(s: &Option<String>) -> (r: Option<String>)
    ensures
        r == *s,
{
    match s {
        Some(t) => Some(t.clone()),
        None => None,
    }
}

// ---------------------------------------------------------------------------
// Codly options
// ---------------------------------------------------------------------------

/// The entries of `m` whose key is not `key`, in order.
pub open spec fn without_key(m: Seq<(String, String)>, key: Seq<char>) -> Seq<(String, String)>
    decreases m.len(),
{
    if m.len() == 0 {
        m
    } else if m.last().0@ != key {
        without_key(m.drop_last(), key).push(m.last())
    } else {
        without_key(m.drop_last(), key)
    }
}

/// `m` with the entry `kv` set (an entry with the same key is replaced).
pub open spec fn codly_set(m: Seq<(String, String)>, kv: (String, String)) -> Seq<(String, String)> {
    without_key(m, kv.0@).push(kv)
}

/// `base` with every entry of `over` set, in order.
pub open spec fn codly_merge(base: Seq<(String, String)>, over: Seq<(String, String)>) -> Seq<
    (String, String),
>
    decreases over.len(),
{
    if over.len() == 0 {
        base
    } else {
        codly_set(codly_merge(base, over.drop_last()), over.last())
    }
}

/// Copy of a pair of strings.
fn copy_pair(p: &(String, String)) -> (r: (String, String))
    ensures
        r == *p,
{
    (p.0.clone(), p.1.clone())
}

/// `m` with the entry `kv` set.
fn set_codly(m: &Vec<(String, String)>, kv: &(String, String)) -> (r: Vec<(String, String)>)
    ensures
        r@ == codly_set(m@, *kv),
{
    let mut r: Vec<(String, String)> = Vec::new();
    let mut i: usize = 0;
    while i < m.len()
        invariant
            i <= m.len(),
            r@ == without_key(m@.take(i as int), kv.0@),
        decreases m.len() - i,
    {
        let p = copy_pair(&m[i]);
        proof {
            let t = m@.take(i + 1);
            assert(t.drop_last() =~= m@.take(i as int));
            assert(t.last() == p);
        }
        if !crate::text::same_chars(&chars_of(p.0.as_str()), &chars_of(kv.0.as_str())) {
            r.push(p);
        }
        i = i + 1;
    }
    assert(m@.take(m.len() as int) =~= m@);
    r.push(copy_pair(kv));
    r
}

/// `base` with every entry of `over` set.
pub fn merge_codly(base: &Vec<(String, String)>, over: &Vec<(String, String)>) -> (r: Vec<
    (String, String),
>)
    ensures
        r@ == codly_merge(base@, over@),
{
    let mut r = set_codly_all(base);
    let mut i: usize = 0;
    while i < over.len()
        invariant
            i <= over.len(),
            r@ == codly_merge(base@, over@.take(i as int)),
        decreases over.len() - i,
    {
        r = set_codly(&r, &over[i]);
        proof {
            let t = over@.take(i + 1);
            assert(t.drop_last() =~= over@.take(i as int));
        }
        i = i + 1;
    }
    assert(over@.take(over.len() as int) =~= over@);
    r
}

/// Copy of codly options.
fn set_codly_all(m: &Vec<(String, String)>) -> (r: Vec<(String, String)>)
    ensures
        r@ == m@,
{
    let mut r: Vec<(String, String)> = Vec::new();
    let mut i: usize = 0;
    while i < m.len()
        invariant
            i <= m.len(),
            r@ == m@.take(i as int),
        decreases m.len() - i,
    {
        r.push(copy_pair(&m[i]));
        assert(r@ =~= m@.take(i + 1));
        i = i + 1;
    }
    assert(m@.take(m.len() as int) =~= m@);
    r
}

// ---------------------------------------------------------------------------
// The configuration
// ---------------------------------------------------------------------------

/// Default chunk options of a section of `knot.toml`, with the codly
/// options (`codly-*` keys) of that section.
#[derive(Debug, Clone, Default)]
pub struct ChunkDefaults {
    /// The chunk options set by the section.
    pub options: ChunkOptions,
    /// Codly options, without their `codly-` prefix.
    pub codly_options: Vec<(String, String)>,
}

impl ChunkDefaults {
    /// These defaults overridden by every option `other` sets.
    pub fn merge(&mut self, other: &ChunkDefaults)
        ensures
            options_view(final(self).options) == overlay_v(
                options_view(old(self).options),
                options_view(other.options),
            ),
            final(self).codly_options@ == codly_merge(
                old(self).codly_options@,
                other.codly_options@,
            ),
    {
        self.options = overlay(&self.options, &other.options);
        self.codly_options = merge_codly(&self.codly_options, &other.codly_options);
    }
}

impl ChunkOptions {
    /// The options, with every option they leave unset taken from `defaults`.
    pub fn apply_config_defaults(&mut self, defaults: &ChunkDefaults)
        ensures
            options_view(*final(self)) == overlay_v(
                options_view(defaults.options),
                options_view(*old(self)),
            ),
    {
        *self = overlay(&defaults.options, self);
    }
}

/// The `[document]` section: the main file and the included files.
#[derive(Debug, Clone, Default)]
pub struct DocumentConfig {
    /// Path of the main `.knot` file.
    pub main: Option<String>,
    /// Further `.knot` files.
    pub includes: Option<Vec<String>>,
}

/// The `[execution]` section.
#[derive(Debug, Clone)]
pub struct ExecutionConfig {
    /// Longest run of one chunk, in seconds.
    pub timeout_secs: u64,
}

impl Default for ExecutionConfig {
    /// Thirty seconds per chunk.
    fn default() -> (r: Self)
        ensures
            r.timeout_secs == DEFAULT_EXECUTION_TIMEOUT_SECS,
    {
        ExecutionConfig { timeout_secs: DEFAULT_EXECUTION_TIMEOUT_SECS }
    }
}

/// The project configuration.
#[derive(Debug, Clone, Default)]
pub struct Config {
    /// `[document]`.
    pub document: DocumentConfig,
    /// `[execution]`.
    pub execution: ExecutionConfig,
    /// `[chunk-defaults]`: defaults for every chunk.
    pub chunk_defaults: ChunkDefaults,
    /// `[codly]`: options passed to codly, as Typst values.
    pub codly: Vec<(String, String)>,
    /// `[r-chunks]`: defaults for R chunks.
    pub r_chunks: Option<ChunkDefaults>,
    /// `[python-chunks]`: defaults for Python chunks.
    pub python_chunks: Option<ChunkDefaults>,
    /// Warnings found while loading.
    pub warnings: Vec<String>,
    /// Whether `codly-*` options are ignored (no source imports codly).
    pub ignore_codly_options: bool,
    /// `[r-error]`: defaults for R chunks after an error.
    pub r_error: Option<ChunkDefaults>,
    /// `[python-error]`: defaults for Python chunks after an error.
    pub python_error: Option<ChunkDefaults>,
}

/// The defaults of the language named `lang`, if it has a section.
pub open spec fn language_defaults(c: Config, lang: Seq<char>) -> Option<ChunkDefaults> {
    match language_named(lang) {
        Some(Language::R) => c.r_chunks,
        Some(Language::Python) => c.python_chunks,
        None => None,
    }
}

/// The defaults after an error of the language named `lang`, if it has a
/// section.
pub open spec fn language_error_defaults(c: Config, lang: Seq<char>) -> Option<ChunkDefaults> {
    match language_named(lang) {
        Some(Language::R) => c.r_error,
        Some(Language::Python) => c.python_error,
        None => None,
    }
}

/// Defaults and codly options `acc` overridden by a section, if present.
pub open spec fn layer(acc: (OptionsV, Seq<(String, String)>), d: Option<ChunkDefaults>) -> (
    OptionsV,
    Seq<(String, String)>,
) {
    match d {
        Some(x) => (overlay_v(acc.0, options_view(x.options)), codly_merge(acc.1, x.codly_options@)),
        None => acc,
    }
}

/// The defaults that apply to a chunk of language `lang` in a state: the
/// global ones, then those of its language, then, for an inert chunk, those
/// of its language after an error.
pub open spec fn effective_defaults(c: Config, lang: Seq<char>, state: ChunkExecutionState) -> (
    OptionsV,
    Seq<(String, String)>,
) {
    let global = (options_view(c.chunk_defaults.options), c.chunk_defaults.codly_options@);
    let with_lang = layer(global, language_defaults(c, lang));
    if state is Inert {
        layer(with_lang, language_error_defaults(c, lang))
    } else {
        with_lang
    }
}

impl Config {
    /// The defaults of the language named `lang`, if it has a section.
    pub fn get_language_defaults(&self, lang: &str) -> (r: Option<&ChunkDefaults>)
        ensures
            r matches Some(d) ==> language_defaults(*self, lang@) == Some(*d),
            r is None ==> language_defaults(*self, lang@) is None,
    {
        match Language::parse(lang) {
            Ok(Language::R) => self.r_chunks.as_ref(),
            Ok(Language::Python) => self.python_chunks.as_ref(),
            Err(_) => None,
        }
    }

    /// The defaults after an error of the language named `lang`, if it has a
    /// section.
    pub fn get_language_error_defaults(&self, lang: &str) -> (r: Option<&ChunkDefaults>)
        ensures
            r matches Some(d) ==> language_error_defaults(*self, lang@) == Some(*d),
            r is None ==> language_error_defaults(*self, lang@) is None,
    {
        match Language::parse(lang) {
            Ok(Language::R) => self.r_error.as_ref(),
            Ok(Language::Python) => self.python_error.as_ref(),
            Err(_) => None,
        }
    }
}

/// The options of a chunk with the configuration applied (global, language
/// and, for an inert chunk, error defaults), the same options resolved, and
/// the codly options of the configuration overridden by those of the chunk.
pub fn resolve_options(chunk: &Chunk, config: &Config, state: &ChunkExecutionState) -> (r: (
    ChunkOptions,
    ResolvedChunkOptions,
    Vec<(String, String)>,
))
    ensures
        options_view(r.0) == overlay_v(
            effective_defaults(*config, chunk.language@, *state).0,
            options_view(chunk.options),
        ),
        resolved_view(r.1) == resolve_v(options_view(r.0)),
        r.2@ == codly_merge(
            effective_defaults(*config, chunk.language@, *state).1,
            chunk.codly_options@,
        ),
{
    let none = no_options();
    let mut effective = ChunkDefaults {
        options: overlay(&config.chunk_defaults.options, &none),
        codly_options: set_codly_all(&config.chunk_defaults.codly_options),
    };
    if let Some(d) = config.get_language_defaults(chunk.language.as_str()) {
        effective.merge(d);
    }
    if let ChunkExecutionState::Inert = state {
        if let Some(e) = config.get_language_error_defaults(chunk.language.as_str()) {
            effective.merge(e);
        }
    }
    let chunk_options = overlay(&effective.options, &chunk.options);
    let merged = merge_codly(&effective.codly_options, &chunk.codly_options);
    let resolved = chunk_options.resolve();
    (chunk_options, resolved, merged)
}

} // verus!
