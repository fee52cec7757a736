//! `codly-*` options need codly's `local()`, which only the document imports.
use crate::ast::Chunk;
use crate::backend::{sort_texts, sorted_seq, views};
use crate::config::{ChunkDefaults, Config};
use crate::text::{
    chars_of, extend, find_char_at, find_char_from, is_alphanumeric, join, join_chars, matches_at,
    occurs_at, push_str, same_chars, slice, spells, string_of, trim, trim_bounds, trim_start,
    trimmed, unicode_alphanumeric,
};
use vstd::prelude::*;

verus! {

/// Whether `c` may stand in the name of an imported item.
pub open spec fn is_item_char(c: char) -> bool {
    unicode_alphanumeric(c) || c == '-' || c == '_'
}

/// Whether one of the items of `items` (the maximal runs of item
/// characters) is `local`.
pub open spec fn names_local(items: Seq<char>) -> bool {
    exists|i: int|
        #![trigger occurs_at(items, "local"@, i)]
        occurs_at(items, "local"@, i) && (i == 0 || !is_item_char(items[i - 1])) && (i + 5
            == items.len() || !is_item_char(items[i + 5])) && (forall|k: int|
            i <= k < i + 5 ==> is_item_char(#[trigger] items[k]))
}

/// Index of the first line break or `;` of `s` at or after `from`, or the
/// length of `s`.
pub open spec fn line_items_end(s: Seq<char>, from: int) -> int
    decreases s.len() - from,
{
    if from < 0 || from >= s.len() {
        s.len() as int
    } else if s[from] == '\n' || s[from] == ';' {
        from
    } else {
        line_items_end(s, from + 1)
    }
}

/// Index of the first `)` of `s`, or the length of `s`.
pub open spec fn list_end(s: Seq<char>) -> int {
    match find_char_from(s, ')', 0) {
        Some(e) => e,
        None => s.len() as int,
    }
}

/// The text after the imported path of the `#import` at `start` of
/// `source` (the path, if quoted, may hold `:`).
pub open spec fn after_import_path(source: Seq<char>, start: int) -> Seq<char> {
    let rest = trim_start(source.skip(start + 7));
    if rest.len() > 0 && rest[0] == '"' {
        let path = rest.skip(1);
        match find_char_from(path, '"', 0) {
            Some(e) => path.skip(e + 1),
            None => Seq::empty(),
        }
    } else {
        rest
    }
}

/// The list of items that the `#import` at `start` of `source` names after
/// its `:`: up to the closing parenthesis of a parenthesized list, else up
/// to the end of the line or a `;`. `None` when it names none.
pub open spec fn imported_items(source: Seq<char>, start: int) -> Option<Seq<char>> {
    let t = trim_start(after_import_path(source, start));
    if t.len() > 0 && t[0] == ':' {
        let items = trim_start(t.skip(1));
        if items.len() > 0 && items[0] == '(' {
            let list = items.skip(1);
            Some(list.take(list_end(list)))
        } else {
            Some(items.take(line_items_end(items, 0)))
        }
    } else {
        None
    }
}

/// Whether the `#import` at `start` of `source` may bring `local` into
/// scope: a glob import, or one that names `local`.
pub open spec fn import_may_provide_local(source: Seq<char>, start: int) -> bool {
    match imported_items(source, start) {
        Some(items) => trim(items) == "*"@ || names_local(items),
        None => false,
    }
}

/// Whether some `#import` of `source` may bring codly's `local` into scope.
pub open spec fn provides_local(source: Seq<char>) -> bool {
    exists|i: int|
        #![trigger occurs_at(source, "#import"@, i)]
        occurs_at(source, "#import"@, i) && import_may_provide_local(source, i)
}

/// `trim_start(v)` as a new vector.
fn trimmed_start(v: &Vec<char>) -> (r: Vec<char>)
    ensures
        r@ == trim_start(v@),
{
    let (a, _) = trim_bounds(v);
    let r = slice(v, a, v.len());
    assert(r@ =~= v@.skip(a as int));
    r
}

/// The characters of `v` from `from` on.
fn suffix(v: &Vec<char>, from: usize) -> (r: Vec<char>)
    requires
        from <= v.len(),
    ensures
        r@ == v@.skip(from as int),
{
    let r = slice(v, from, v.len());
    assert(r@ =~= v@.skip(from as int));
    r
}

/// The first line break or `;` of `v`, or its length.
fn line_items_end_of(v: &Vec<char>) -> (r: usize)
    ensures
        r as int == line_items_end(v@, 0),
        r <= v.len(),
{
    let mut i: usize = 0;
    while i < v.len() && v[i] != '\n' && v[i] != ';'
        invariant
            i <= v.len(),
            line_items_end(v@, 0) == line_items_end(v@, i as int),
        decreases v.len() - i,
    {
        i = i + 1;
    }
    i
}

/// The items named by the `#import` at `start` of `v`.
fn imported_items_at(v: &Vec<char>, start: usize) -> (r: Option<Vec<char>>)
    requires
        start + 7 <= v.len(),
    ensures
        match imported_items(v@, start as int) {
            Some(items) => r matches Some(x) && x@ == items,
            None => r is None,
        },
{
    let rest = trimmed_start(&suffix(v, start + 7));
    let after = if rest.len() > 0 && rest[0] == '"' {
        let path = suffix(&rest, 1);
        match find_char_at(&path, '"', 0) {
            Some(e) => suffix(&path, e + 1),
            None => Vec::new(),
        }
    } else {
        rest
    };
    assert(after@ == after_import_path(v@, start as int));
    let t = trimmed_start(&after);
    if !(t.len() > 0 && t[0] == ':') {
        return None;
    }
    let items = trimmed_start(&suffix(&t, 1));
    if items.len() > 0 && items[0] == '(' {
        let list = suffix(&items, 1);
        let e = match find_char_at(&list, ')', 0) {
            Some(e) => e,
            None => list.len(),
        };
        let r = slice(&list, 0, e);
        assert(r@ =~= list@.take(e as int));
        Some(r)
    } else {
        let e = line_items_end_of(&items);
        let r = slice(&items, 0, e);
        assert(r@ =~= items@.take(e as int));
        Some(r)
    }
}

/// Whether `c` may stand in the name of an imported item.
fn item_char(c: char) -> (b: bool)
    ensures
        b == is_item_char(c),
{
    is_alphanumeric(c) || c == '-' || c == '_'
}

/// Whether `local` is an item of `items`.
fn has_local_item(items: &Vec<char>) -> (b: bool)
    ensures
        b == names_local(items@),
{
    let word = chars_of("local");
    proof {
        reveal_strlit("local");
    }
    assert(word@.len() == 5);
    if items.len() < 5 {
        assert forall|i: int| !occurs_at(items@, "local"@, i) by {}
        return false;
    }
    let mut i: usize = 0;
    while i <= items.len() - 5
        invariant
            word@ == "local"@,
            word@.len() == 5,
            5 <= items.len(),
            i <= items.len() - 4,
            forall|j: int|
                #![trigger occurs_at(items@, "local"@, j)]
                0 <= j < i ==> !(occurs_at(items@, "local"@, j) && (j == 0 || !is_item_char(
                    items@[j - 1],
                )) && (j + 5 == items.len() || !is_item_char(items@[j + 5])) && (forall|k: int|
                    j <= k < j + 5 ==> is_item_char(#[trigger] items@[k]))),
        decreases items.len() - i,
    {
        if matches_at(items, &word, i) {
            let before = i == 0 || !item_char(items[i - 1]);
            let after = i + 5 == items.len() || !item_char(items[i + 5]);
            let mut all = true;
            let mut k: usize = 0;
            while k < 5
                invariant
                    i + 5 <= items.len(),
                    k <= 5,
                    all == (forall|m: int| i <= m < i + k ==> is_item_char(#[trigger] items@[m])),
                decreases 5 - k,
            {
                let c = item_char(items[i + k]);
                proof {
                    if all && c {
                        assert forall|m: int| i <= m < i + k + 1 implies is_item_char(
                            #[trigger] items@[m],
                        ) by {
                            if m == i + k {
                            }
                        }
                    }
                }
                all = all && c;
                k = k + 1;
            }
            if before && after && all {
                assert(occurs_at(items@, "local"@, i as int));
                return true;
            }
        }
        i = i + 1;
    }
    proof {
        assert forall|j: int|
            #![trigger occurs_at(items@, "local"@, j)]
            !(occurs_at(items@, "local"@, j) && (j == 0 || !is_item_char(items@[j - 1])) && (j + 5
                == items.len() || !is_item_char(items@[j + 5])) && (forall|k: int|
                j <= k < j + 5 ==> is_item_char(#[trigger] items@[k]))) by {
            if j >= i {
                assert(!occurs_at(items@, "local"@, j));
            }
        }
    }
    false
}

/// Whether an `#import` of `source` may bring codly's `local` into scope:
/// a glob import (possibly of a template that re-exports codly) or one that
/// names `local`.
pub fn may_provide_local(source: &str) -> (r: bool)
    ensures
        r == provides_local(source@),
{
    let v = chars_of(source);
    let key = chars_of("#import");
    proof {
        reveal_strlit("#import");
    }
    assert(key@.len() == 7);
    if v.len() < 7 {
        assert forall|j: int| !occurs_at(v@, "#import"@, j) by {}
        return false;
    }
    let mut i: usize = 0;
    while i <= v.len() - 7
        invariant
            7 <= v.len(),
            key@ == "#import"@,
            key@.len() == 7,
            v@ == source@,
            forall|j: int|
                #![trigger occurs_at(v@, "#import"@, j)]
                0 <= j < i ==> !(occurs_at(v@, "#import"@, j) && import_may_provide_local(v@, j)),
        decreases v.len() - i,
    {
        if matches_at(&v, &key, i) {
            match imported_items_at(&v, i) {
                Some(items) => {
                    let t = trimmed(&items);
                    if spells(&t, "*") || has_local_item(&items) {
                        assert(occurs_at(v@, "#import"@, i as int));
                        return true;
                    }
                },
                None => {},
            }
        }
        i = i + 1;
    }
    proof {
        assert forall|j: int|
            #![trigger occurs_at(v@, "#import"@, j)]
            !(occurs_at(v@, "#import"@, j) && import_may_provide_local(v@, j)) by {
            if j >= i {
                assert(!occurs_at(v@, "#import"@, j));
            }
        }
    }
    false
}

/// Each option name between single quotes.
pub open spec fn quote_each(options: Seq<Seq<char>>) -> Seq<Seq<char>> {
    options.map_values(|o: Seq<char>| "'"@ + o + "'"@)
}

/// Message for `codly-*` options used without a codly import.
pub open spec fn missing_import_text(options: Seq<Seq<char>>) -> Seq<char> {
    "The codly options "@ + join(quote_each(options), ", "@)
        + " are ignored: the document does not import codly. Add '#import \"@preview/codly:1.3.0\": *' and '#show: codly-init' at the top of the main document, or remove these options."@
}

/// Message for `codly-*` options used without a codly import.
pub fn missing_import_message(options: &Vec<String>) -> (r: String)
    ensures
        r@ == missing_import_text(options@.map_values(|o: String| o@)),
{
    let mut parts: Vec<Vec<char>> = Vec::new();
    let mut i: usize = 0;
    while i < options.len()
        invariant
            i <= options.len(),
            views(parts@) == quote_each(options@.map_values(|o: String| o@)).take(i as int),
        decreases options.len() - i,
    {
        let mut q = chars_of("'");
        push_str(&mut q, options[i].as_str());
        push_str(&mut q, "'");
        let ghost before = parts@;
        let ghost qv = q@;
        parts.push(q);
        proof {
            let all = quote_each(options@.map_values(|o: String| o@));
            assert(qv == all[i as int]);
            assert(views(parts@) =~= views(before).push(qv));
            assert(views(parts@) =~= all.take(i + 1));
        }
        i = i + 1;
    }
    let names = join_chars(&parts, ", ");
    assert(parts@.map_values(|p: Vec<char>| p@) == views(parts@));
    assert(quote_each(options@.map_values(|o: String| o@)).take(options.len() as int) == quote_each(
        options@.map_values(|o: String| o@),
    ));
    let mut m = chars_of("The codly options ");
    extend(&mut m, &names);
    push_str(
        &mut m,
        " are ignored: the document does not import codly. Add '#import \"@preview/codly:1.3.0\": *' and '#show: codly-init' at the top of the main document, or remove these options.",
    );
    string_of(&m)
}

/// The names `codly-<key>` of the codly options `m`.
pub open spec fn prefixed_keys(m: Seq<(String, String)>) -> Seq<Seq<char>> {
    m.map_values(|p: (String, String)| "codly-"@ + p.0@)
}

/// The codly option names of a section, if present.
pub open spec fn section_keys(d: Option<ChunkDefaults>) -> Seq<Seq<char>> {
    match d {
        Some(d) => prefixed_keys(d.codly_options@),
        None => Seq::empty(),
    }
}

/// The codly option names written in `chunks`, in order.
pub open spec fn chunk_keys(chunks: Seq<Chunk>) -> Seq<Seq<char>>
    decreases chunks.len(),
{
    if chunks.len() == 0 {
        Seq::empty()
    } else {
        chunk_keys(chunks.drop_last()) + prefixed_keys(chunks.last().codly_options@)
    }
}

/// The codly option names set in the configuration, then in the chunks.
pub open spec fn codly_option_names(config: Config, chunks: Seq<Chunk>) -> Seq<Seq<char>> {
    prefixed_keys(config.chunk_defaults.codly_options@) + section_keys(config.r_chunks)
        + section_keys(config.python_chunks) + section_keys(config.r_error) + section_keys(
        config.python_error,
    ) + chunk_keys(chunks)
}

/// `s` (sorted) with each run of equal texts kept once.
pub open spec fn dedup_sorted(s: Seq<Seq<char>>) -> Seq<Seq<char>>
    decreases s.len(),
{
    if s.len() <= 1 {
        s
    } else if s[s.len() - 2] == s.last() {
        dedup_sorted(s.drop_last())
    } else {
        dedup_sorted(s.drop_last()).push(s.last())
    }
}

/// Whether some source may bring codly's `local` into scope.
pub open spec fn some_provides_local(sources: Seq<String>) -> bool {
    exists|i: int| 0 <= i < sources.len() && provides_local(#[trigger] sources[i]@)
}

/// The warning owed when codly options are set but no source may import
/// codly's `local`.
pub open spec fn codly_warning(config: Config, sources: Seq<String>, chunks: Seq<Chunk>) -> Option<
    Seq<char>,
> {
    let options = dedup_sorted(sorted_seq(codly_option_names(config, chunks)));
    if some_provides_local(sources) || options.len() == 0 {
        None
    } else {
        Some(missing_import_text(options))
    }
}

/// Appends the names `codly-<key>` of the options `m` to `out`.
fn push_keys(out: &mut Vec<Vec<char>>, m: &Vec<(String, String)>)
    ensures
        views(final(out)@) == views(old(out)@) + prefixed_keys(m@),
{
    let ghost start = views(out@);
    let mut i: usize = 0;
    while i < m.len()
        invariant
            i <= m.len(),
            views(out@) == start + prefixed_keys(m@).take(i as int),
        decreases m.len() - i,
    {
        let mut k = chars_of("codly-");
        push_str(&mut k, m[i].0.as_str());
        let ghost before = out@;
        let ghost kv = k@;
        out.push(k);
        proof {
            assert(kv == prefixed_keys(m@)[i as int]);
            assert(views(out@) =~= views(before).push(kv));
            assert(views(out@) =~= start + prefixed_keys(m@).take(i + 1));
        }
        i = i + 1;
    }
    assert(prefixed_keys(m@).take(m.len() as int) == prefixed_keys(m@));
}

/// Appends the names of the codly options of the section `d`, if present.
fn push_section_keys(out: &mut Vec<Vec<char>>, d: &Option<ChunkDefaults>)
    ensures
        views(final(out)@) == views(old(out)@) + section_keys(*d),
{
    match d {
        Some(d) => push_keys(out, &d.codly_options),
        None => {
            assert(views(out@) + section_keys(None) =~= views(out@));
        },
    }
}

/// `items` (sorted) with each run of equal texts kept once.
fn dedup_texts(items: &Vec<Vec<char>>) -> (r: Vec<String>)
    ensures
        r@.map_values(|o: String| o@) == dedup_sorted(views(items@)),
{
    let mut r: Vec<String> = Vec::new();
    let mut i: usize = 0;
    while i < items.len()
        invariant
            i <= items.len(),
            r@.map_values(|o: String| o@) == dedup_sorted(views(items@).take(i as int)),
        decreases items.len() - i,
    {
        let keep = i == 0 || !same_chars(&items[i - 1], &items[i]);
        proof {
            let t = views(items@).take(i + 1);
            assert(t.drop_last() == views(items@).take(i as int));
            assert(t.last() == items@[i as int]@);
            if i > 0 {
                assert(t[t.len() - 2] == items@[i - 1]@);
            }
        }
        if keep {
            let ghost before = r@;
            r.push(string_of(&items[i]));
            proof {
                assert(r@.map_values(|o: String| o@) =~= before.map_values(|o: String| o@).push(
                    items@[i as int]@,
                ));
            }
        }
        i = i + 1;
    }
    assert(views(items@).take(items.len() as int) == views(items@));
    r
}

/// When `codly-*` options are set (in the configuration or in `chunks`,
/// the chunks of `sources`) but no source may import codly's `local`, the
/// warning to show: the options, sorted and each once, are then ignored.
pub fn missing_import_warning(config: &Config, sources: &Vec<String>, chunks: &Vec<Chunk>) -> (r:
    Option<String>)
    ensures
        match codly_warning(*config, sources@, chunks@) {
            Some(m) => r matches Some(t) && t@ == m,
            None => r is None,
        },
{
    let mut i: usize = 0;
    while i < sources.len()
        invariant
            i <= sources.len(),
            forall|j: int| 0 <= j < i ==> !provides_local(#[trigger] sources@[j]@),
        decreases sources.len() - i,
    {
        if may_provide_local(sources[i].as_str()) {
            assert(provides_local(sources@[i as int]@));
            return None;
        }
        i = i + 1;
    }
    let mut names: Vec<Vec<char>> = Vec::new();
    push_keys(&mut names, &config.chunk_defaults.codly_options);
    push_section_keys(&mut names, &config.r_chunks);
    push_section_keys(&mut names, &config.python_chunks);
    push_section_keys(&mut names, &config.r_error);
    push_section_keys(&mut names, &config.python_error);
    let ghost from_config = views(names@);
    let mut c: usize = 0;
    while c < chunks.len()
        invariant
            c <= chunks.len(),
            views(names@) == from_config + chunk_keys(chunks@.take(c as int)),
        decreases chunks.len() - c,
    {
        push_keys(&mut names, &chunks[c].codly_options);
        proof {
            let t = chunks@.take(c + 1);
            assert(t.drop_last() == chunks@.take(c as int));
            assert(t.last() == chunks@[c as int]);
        }
        c = c + 1;
    }
    assert(chunks@.take(chunks.len() as int) == chunks@);
    assert(views(names@) == codly_option_names(*config, chunks@));
    let sorted = sort_texts(&names);
    let options = dedup_texts(&sorted);
    if options.len() == 0 {
        return None;
    }
    Some(missing_import_message(&options))
}

} // verus!
