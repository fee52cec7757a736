//! Properties that relate several operations of the library.
use crate::backend::{insert_sorted, option_entries, sorted_seq, typst_call};
use crate::cache::{chunk_position, chunks_without, inline_position, inline_without, ChunkCacheEntry, InlineCacheEntry};
use crate::text::seq_lt;
use crate::compiler::{assembled, asm_run, NodeV};
use crate::ast::OptionsV;
use crate::config::overlay_v;
use crate::hashing::{chunk_identity, execution_options_text, frame, freeze_hash, inline_identity, le_bytes};
use crate::ast::{ChunkOptions, InlineOptions};
use vstd::utf8::encode_utf8_decode_utf8;
use crate::text::{char_index, enc_len, is_boundary};
use vstd::prelude::*;

verus! {

/// The text cached for identity `h` among `es`: that of its first entry.
pub open spec fn inline_lookup(es: Seq<InlineCacheEntry>, h: Seq<char>) -> Option<Seq<char>> {
    match inline_position(es, h) {
        Some(i) => Some(es[i].result@),
        None => None,
    }
}

/// The first entry with identity `h`, found from the front.
spec fn first_text(es: Seq<InlineCacheEntry>, h: Seq<char>) -> Option<Seq<char>>
    decreases es.len(),
{
    if es.len() == 0 {
        None
    } else if es[0].hash@ == h {
        Some(es[0].result@)
    } else {
        first_text(es.drop_first(), h)
    }
}

/// The first entry with identity `h` at or after index `k`.
spec fn first_from(es: Seq<InlineCacheEntry>, h: Seq<char>, k: int) -> Option<Seq<char>>
    decreases es.len() - k,
{
    if k < 0 || k >= es.len() {
        None
    } else if es[k].hash@ == h {
        Some(es[k].result@)
    } else {
        first_from(es, h, k + 1)
    }
}

/// Past entries without the identity, the lookup is the search from `k`.
proof fn lemma_lookup_from(es: Seq<InlineCacheEntry>, h: Seq<char>, k: int)
    requires
        0 <= k,
        forall|j: int| 0 <= j < k && j < es.len() ==> #[trigger] es[j].hash@ != h,
    ensures
        inline_lookup(es, h) == first_from(es, h, k),
    decreases es.len() - k,
{
    if k >= es.len() {
        assert forall|i: int| 0 <= i < es.len() implies #[trigger] es[i].hash@ != h by {}
    } else if es[k].hash@ == h {
        crate::cache::lemma_first_inline(es, h, k);
    } else {
        lemma_lookup_from(es, h, k + 1);
    }
}

/// Searching from a later index is searching the entries after the first.
proof fn lemma_from_shift(es: Seq<InlineCacheEntry>, h: Seq<char>, k: int)
    requires
        es.len() > 0,
        k >= 1,
    ensures
        first_from(es, h, k) == first_from(es.drop_first(), h, k - 1),
    decreases es.len() - k,
{
    if k < es.len() {
        assert(es[k] == es.drop_first()[k - 1]);
        lemma_from_shift(es, h, k + 1);
    }
}

/// The search from the front is the search from index 0.
proof fn lemma_text_from(es: Seq<InlineCacheEntry>, h: Seq<char>)
    ensures
        first_text(es, h) == first_from(es, h, 0),
    decreases es.len(),
{
    if es.len() > 0 {
        lemma_text_from(es.drop_first(), h);
        lemma_from_shift(es, h, 1);
    }
}

/// `inline_lookup` finds the first entry with the identity.
proof fn lemma_lookup_first(es: Seq<InlineCacheEntry>, h: Seq<char>)
    ensures
        inline_lookup(es, h) == first_text(es, h),
{
    lemma_lookup_from(es, h, 0);
    lemma_text_from(es, h);
}

/// Removing the entries of one identity leaves the others found as before.
proof fn lemma_first_without(es: Seq<InlineCacheEntry>, h: Seq<char>, h2: Seq<char>)
    requires
        h2 != h,
    ensures
        first_text(inline_without(es, h), h2) == first_text(es, h2),
    decreases es.len(),
{
    if es.len() > 0 {
        lemma_first_without(es.drop_first(), h, h2);
        if es[0].hash@ != h {
            let w = inline_without(es, h);
            assert(w.drop_first() == inline_without(es.drop_first(), h));
        }
    }
}

/// An entry added at the end is found only when no earlier one has its
/// identity.
proof fn lemma_first_push(es: Seq<InlineCacheEntry>, e: InlineCacheEntry, h2: Seq<char>)
    ensures
        first_text(es.push(e), h2) == match first_text(es, h2) {
            Some(t) => Some(t),
            None => if e.hash@ == h2 {
                Some(e.result@)
            } else {
                None
            },
        },
    decreases es.len(),
{
    reveal_with_fuel(first_text, 2);
    if es.len() > 0 {
        lemma_first_push(es.drop_first(), e, h2);
        assert(es.push(e).drop_first() == es.drop_first().push(e));
        assert(es.push(e)[0] == es[0]);
    } else {
        assert(es.push(e).drop_first() =~= Seq::<InlineCacheEntry>::empty());
        assert(es.push(e)[0] == e);
    }
}

/// Caching the text of an inline expression (see `Cache::save_inline_result`)
/// makes it the text read back for its identity, and leaves the text read
/// back for every other identity as it was.
pub proof fn law_inline_cache_read_after_write(
    before: Seq<InlineCacheEntry>,
    after: Seq<InlineCacheEntry>,
    h: Seq<char>,
    t: Seq<char>,
)
    requires
        after.len() > 0,
        after.drop_last() == inline_without(before, h),
        after.last().hash@ == h,
        after.last().result@ == t,
    ensures
        inline_lookup(after, h) == Some(t),
        forall|h2: Seq<char>| h2 != h ==> #[trigger] inline_lookup(after, h2) == inline_lookup(before, h2),
{
    assert(after == after.drop_last().push(after.last()));
    crate::cache::lemma_inline_without(before, h);
    lemma_lookup_first(after, h);
    lemma_first_push(after.drop_last(), after.last(), h);
    let w = inline_without(before, h);
    assert(first_text(w, h) is None) by {
        lemma_first_absent(w, h);
    }
    assert forall|h2: Seq<char>| h2 != h implies #[trigger] inline_lookup(after, h2)
        == inline_lookup(before, h2) by {
        lemma_lookup_first(after, h2);
        lemma_lookup_first(before, h2);
        lemma_first_push(after.drop_last(), after.last(), h2);
        lemma_first_without(before, h, h2);
    }
}

/// No entry with an identity that none has is found.
proof fn lemma_first_absent(es: Seq<InlineCacheEntry>, h: Seq<char>)
    requires
        forall|i: int| 0 <= i < es.len() ==> #[trigger] es[i].hash@ != h,
    ensures
        first_text(es, h) is None,
    decreases es.len(),
{
    if es.len() > 0 {
        assert(es[0].hash@ != h);
        assert forall|i: int| 0 <= i < es.drop_first().len() implies #[trigger] es.drop_first()[i].hash@
            != h by {
            assert(es.drop_first()[i] == es[i + 1]);
        }
        lemma_first_absent(es.drop_first(), h);
    }
}

/// A document without executable nodes is generated as its source,
/// unchanged.
pub proof fn law_assemble_without_nodes(src: Seq<char>, file: Seq<char>)
    ensures
        assembled(Seq::<NodeV>::empty(), src, file) == Some(src),
{
    let st = asm_run(Seq::<NodeV>::empty(), 0, src, file);
    assert(st.ok && st.last == 0 && st.out == Seq::<char>::empty());
    assert(src.take(0) =~= Seq::<char>::empty());
    crate::text::lemma_char_index(src, 0);
    if src.len() > 0 {
        crate::text::lemma_enc_len_mono(src, 0, src.len() as int);
        assert(src.take(src.len() as int) == src);
        assert(src.subrange(0, src.len() as int) == src);
    } else {
        assert(src.take(0) == src);
    }
}


// ---------------------------------------------------------------------------
// Sorted calls
// ---------------------------------------------------------------------------

/// No text sorts before itself.
proof fn lemma_lt_irreflexive(a: Seq<char>)
    ensures
        !seq_lt(a, a),
    decreases a.len(),
{
    if a.len() > 0 {
        lemma_lt_irreflexive(a.drop_first());
    }
}

/// The order of texts is transitive.
proof fn lemma_lt_transitive(a: Seq<char>, b: Seq<char>, c: Seq<char>)
    requires
        seq_lt(a, b),
        seq_lt(b, c),
    ensures
        seq_lt(a, c),
    decreases a.len(),
{
    if a.len() > 0 && b.len() > 0 && c.len() > 0 {
        if (a[0] as u32) == (b[0] as u32) && (b[0] as u32) == (c[0] as u32) {
            lemma_lt_transitive(a.drop_first(), b.drop_first(), c.drop_first());
        }
    }
}

/// Of two different texts, one sorts before the other.
proof fn lemma_lt_total(a: Seq<char>, b: Seq<char>)
    requires
        a != b,
    ensures
        seq_lt(a, b) || seq_lt(b, a),
    decreases a.len(),
{
    if a.len() > 0 && b.len() > 0 && (a[0] as u32) == (b[0] as u32) {
        vstd::utf8::char_u32_cast(a[0], a[0] as u32);
        vstd::utf8::char_u32_cast(b[0], b[0] as u32);
        assert(a[0] == b[0]);
        if a.drop_first() == b.drop_first() {
            assert(a =~= seq![a[0]] + a.drop_first());
            assert(b =~= seq![b[0]] + b.drop_first());
        }
        lemma_lt_total(a.drop_first(), b.drop_first());
    } else if a.len() == 0 && b.len() == 0 {
        assert(a =~= b);
    }
}

/// `s` is in ascending order.
pub open spec fn ascending(s: Seq<Seq<char>>) -> bool {
    forall|i: int, j: int| 0 <= i < j < s.len() ==> !seq_lt(#[trigger] s[j], #[trigger] s[i])
}

/// "Not before" is transitive.
proof fn lemma_not_before(a: Seq<char>, b: Seq<char>, c: Seq<char>)
    requires
        !seq_lt(b, a),
        !seq_lt(c, b),
    ensures
        !seq_lt(c, a),
{
    if seq_lt(c, a) {
        if a != b {
            lemma_lt_total(a, b);
        }
        if b != c {
            lemma_lt_total(b, c);
        }
        if a != b && b != c {
            lemma_lt_transitive(a, b, c);
            lemma_lt_transitive(c, a, c);
            lemma_lt_irreflexive(c);
        } else if a != b {
            lemma_lt_transitive(c, a, b);
        } else if b != c {
            lemma_lt_transitive(c, b, c);
            lemma_lt_irreflexive(c);
        } else {
            lemma_lt_irreflexive(a);
        }
    }
}

/// Inserting into an ascending sequence keeps it ascending and adds the
/// text to its multiset.
proof fn lemma_insert_sorted(x: Seq<char>, l: Seq<Seq<char>>)
    requires
        ascending(l),
    ensures
        ascending(insert_sorted(x, l)),
        insert_sorted(x, l).to_multiset() == l.to_multiset().insert(x),
{
    let p = first_not_before(x, l, 0);
    lemma_first_not_before(x, l, 0);
    crate::backend::lemma_insert_at(x, l, p);
    let r = insert_sorted(x, l);
    assert(r =~= l.insert(p, x));
    vstd::seq_lib::to_multiset_insert(l, p, x);
    assert forall|i: int, j: int| 0 <= i < j < r.len() implies !seq_lt(#[trigger] r[j], #[trigger] r[i]) by {
        if j < p {
            assert(r[i] == l[i] && r[j] == l[j]);
        } else if j == p {
            assert(r[j] == x);
            assert(r[i] == l[i]);
            assert(seq_lt(l[i], x));
            if seq_lt(x, l[i]) {
                lemma_lt_transitive(x, l[i], x);
                lemma_lt_irreflexive(x);
            }
        } else if i > p {
            assert(r[i] == l[i - 1] && r[j] == l[j - 1]);
        } else if i == p {
            assert(r[i] == x);
            assert(r[j] == l[j - 1]);
            if j - 1 > p {
                assert(!seq_lt(l[j - 1], l[p]));
            } else {
                lemma_lt_irreflexive(l[p]);
            }
            lemma_not_before(x, l[p], l[j - 1]);
        } else {
            assert(r[i] == l[i]);
            assert(r[j] == l[j - 1]);
        }
    }
}

/// Index of the first text of `l`, from `k` on, that does not sort before
/// `x`, or the length of `l`.
spec fn first_not_before(x: Seq<char>, l: Seq<Seq<char>>, k: int) -> int
    decreases l.len() - k,
{
    if k < 0 || k >= l.len() {
        l.len() as int
    } else if !seq_lt(l[k], x) {
        k
    } else {
        first_not_before(x, l, k + 1)
    }
}

/// The first text not sorting before `x` is where insertion places it.
proof fn lemma_first_not_before(x: Seq<char>, l: Seq<Seq<char>>, k: int)
    requires
        0 <= k <= l.len(),
        forall|j: int| 0 <= j < k ==> seq_lt(#[trigger] l[j], x),
    ensures
        k <= first_not_before(x, l, k) <= l.len(),
        forall|j: int| 0 <= j < first_not_before(x, l, k) ==> seq_lt(#[trigger] l[j], x),
        first_not_before(x, l, k) < l.len() ==> !seq_lt(l[first_not_before(x, l, k)], x),
    decreases l.len() - k,
{
    if k < l.len() && seq_lt(l[k], x) {
        lemma_first_not_before(x, l, k + 1);
    }
}

/// Sorting gives an ascending sequence of the same texts.
proof fn lemma_sorted_seq(s: Seq<Seq<char>>)
    ensures
        ascending(sorted_seq(s)),
        sorted_seq(s).to_multiset() == s.to_multiset(),
    decreases s.len(),
{
    if s.len() > 0 {
        lemma_sorted_seq(s.drop_last());
        lemma_insert_sorted(s.last(), sorted_seq(s.drop_last()));
        assert(s =~= s.drop_last().push(s.last()));
        vstd::seq_lib::to_multiset_build(s.drop_last(), s.last());
    } else {
        assert(s.to_multiset() =~= sorted_seq(s).to_multiset());
    }
}

/// Two ascending sequences of the same texts are equal.
proof fn lemma_ascending_unique(a: Seq<Seq<char>>, b: Seq<Seq<char>>)
    requires
        ascending(a),
        ascending(b),
        a.to_multiset() == b.to_multiset(),
    ensures
        a == b,
    decreases a.len(),
{
    vstd::seq_lib::to_multiset_len(a);
    vstd::seq_lib::to_multiset_len(b);
    if a.len() == 0 {
        assert(a =~= b);
    } else {
        vstd::seq_lib::to_multiset_contains(a, a[0]);
        vstd::seq_lib::to_multiset_contains(b, a[0]);
        vstd::seq_lib::to_multiset_contains(a, b[0]);
        vstd::seq_lib::to_multiset_contains(b, b[0]);
        assert(a.contains(a[0]));
        assert(b.contains(b[0]));
        let k = choose|k: int| 0 <= k < b.len() && b[k] == a[0];
        let m = choose|m: int| 0 <= m < a.len() && a[m] == b[0];
        if k > 0 {
            assert(!seq_lt(b[k], b[0]));
        }
        if m > 0 {
            assert(!seq_lt(a[m], a[0]));
        }
        if a[0] != b[0] {
            lemma_lt_total(a[0], b[0]);
        }
        assert(a[0] == b[0]);
        vstd::seq_lib::to_multiset_remove(a, 0);
        vstd::seq_lib::to_multiset_remove(b, 0);
        assert(a.remove(0) =~= a.drop_first());
        assert(b.remove(0) =~= b.drop_first());
        let ta = a.drop_first();
        let tb = b.drop_first();
        assert forall|i: int, j: int| 0 <= i < j < ta.len() implies !seq_lt(#[trigger] ta[j], #[trigger] ta[i]) by {
            assert(ta[i] == a[i + 1] && ta[j] == a[j + 1]);
        }
        assert forall|i: int, j: int| 0 <= i < j < tb.len() implies !seq_lt(#[trigger] tb[j], #[trigger] tb[i]) by {
            assert(tb[i] == b[i + 1] && tb[j] == b[j + 1]);
        }
        lemma_ascending_unique(ta, tb);
        assert(a =~= seq![a[0]] + ta);
        assert(b =~= seq![b[0]] + tb);
    }
}

/// Sorting the same texts in any order gives the same sequence.
pub proof fn law_sorting_ignores_order(x: Seq<Seq<char>>, y: Seq<Seq<char>>)
    requires
        x.to_multiset() == y.to_multiset(),
    ensures
        sorted_seq(x) == sorted_seq(y),
{
    lemma_sorted_seq(x);
    lemma_sorted_seq(y);
    lemma_ascending_unique(sorted_seq(x), sorted_seq(y));
}

/// A call with named options (`#codly(..)`, `#local(..)`) does not depend
/// on the order in which the options are given: the same options in any
/// order give the same call.
pub proof fn law_typst_call_ignores_order(
    name: Seq<char>,
    a: Seq<(String, String)>,
    b: Seq<(String, String)>,
)
    requires
        option_entries(a).to_multiset() == option_entries(b).to_multiset(),
    ensures
        typst_call(name, a) == typst_call(name, b),
{
    law_sorting_ignores_order(option_entries(a), option_entries(b));
}


// ---------------------------------------------------------------------------
// One cache entry per chunk
// ---------------------------------------------------------------------------

/// Each chunk of the document has at most one entry.
pub open spec fn one_entry_per_chunk(chunks: Seq<ChunkCacheEntry>) -> bool {
    forall|i: int, j: int| 0 <= i < j < chunks.len() ==> (#[trigger] chunks[i]).index != (
    #[trigger] chunks[j]).index
}

/// The entries kept by `chunks_without` are entries of `chunks`, in order.
proof fn lemma_without_keeps_entries(chunks: Seq<ChunkCacheEntry>, index: usize)
    ensures
        forall|i: int|
            0 <= i < chunks_without(chunks, index).len() ==> chunks.contains(
                #[trigger] chunks_without(chunks, index)[i],
            ),
    decreases chunks.len(),
{
    if chunks.len() > 0 {
        lemma_without_keeps_entries(chunks.drop_first(), index);
        let rest = chunks_without(chunks.drop_first(), index);
        let all = chunks_without(chunks, index);
        assert forall|i: int| 0 <= i < all.len() implies chunks.contains(#[trigger] all[i]) by {
            let e = all[i];
            if chunks[0].index != index {
                if i == 0 {
                    assert(chunks[0] == e);
                } else {
                    assert(e == rest[i - 1]);
                    let k = choose|k: int| 0 <= k < chunks.drop_first().len() && chunks.drop_first()[k] == e;
                    assert(chunks[k + 1] == e);
                }
            } else {
                assert(e == rest[i]);
                let k = choose|k: int| 0 <= k < chunks.drop_first().len() && chunks.drop_first()[k] == e;
                assert(chunks[k + 1] == e);
            }
        }
    }
}

/// Removing the entries of a chunk keeps one entry per chunk.
proof fn lemma_without_one_entry(chunks: Seq<ChunkCacheEntry>, index: usize)
    requires
        one_entry_per_chunk(chunks),
    ensures
        one_entry_per_chunk(chunks_without(chunks, index)),
    decreases chunks.len(),
{
    if chunks.len() > 0 {
        let rest = chunks.drop_first();
        assert(one_entry_per_chunk(rest)) by {
            assert forall|i: int, j: int| 0 <= i < j < rest.len() implies (#[trigger] rest[i]).index
                != (#[trigger] rest[j]).index by {
                assert(rest[i] == chunks[i + 1] && rest[j] == chunks[j + 1]);
            }
        }
        lemma_without_one_entry(rest, index);
        lemma_without_keeps_entries(rest, index);
        let w = chunks_without(rest, index);
        if chunks[0].index != index {
            let all = chunks_without(chunks, index);
            assert forall|i: int, j: int| 0 <= i < j < all.len() implies (#[trigger] all[i]).index
                != (#[trigger] all[j]).index by {
                if i == 0 {
                    assert(all[j] == w[j - 1]);
                    assert(rest.contains(w[j - 1]));
                    let k = choose|k: int| 0 <= k < rest.len() && rest[k] == w[j - 1];
                    assert(chunks[k + 1] == rest[k]);
                } else {
                    assert(all[i] == w[i - 1] && all[j] == w[j - 1]);
                }
            }
        }
    }
}

/// Saving the result or the error of a chunk (see `Cache::save_result` and
/// `Cache::save_error`, which replace the chunk's entry) keeps one entry per
/// chunk.
pub proof fn law_one_entry_per_chunk(
    before: Seq<ChunkCacheEntry>,
    after: Seq<ChunkCacheEntry>,
    index: usize,
)
    requires
        one_entry_per_chunk(before),
        after.len() > 0,
        after.drop_last() == chunks_without(before, index),
        after.last().index == index,
    ensures
        one_entry_per_chunk(after),
{
    lemma_without_one_entry(before, index);
    crate::cache::lemma_chunks_without(before, index);
    let w = chunks_without(before, index);
    assert forall|i: int, j: int| 0 <= i < j < after.len() implies (#[trigger] after[i]).index
        != (#[trigger] after[j]).index by {
        if j == after.len() - 1 {
            assert(after[i] == w[i]);
        } else {
            assert(after[i] == w[i] && after[j] == w[j]);
        }
    }
}

/// Layers of chunk options combine the same way however they are grouped:
/// laying `mid` over `base` and then `top` over the result gives what
/// laying `top` over `mid`, then the whole over `base`, gives. The options
/// a chunk sets win over its language's defaults, which win over the global
/// defaults, whether the defaults are merged first or applied one by one.
pub proof fn law_option_layers_associate(base: OptionsV, mid: OptionsV, top: OptionsV)
    ensures
        overlay_v(overlay_v(base, mid), top) == overlay_v(base, overlay_v(mid, top)),
{
    let l = overlay_v(overlay_v(base, mid), top);
    let r = overlay_v(base, overlay_v(mid, top));
    assert(l.eval == r.eval);
    assert(l.show == r.show);
    assert(l.cache == r.cache);
    assert(l.caption == r.caption);
    assert(l.fig_width == r.fig_width);
    assert(l.fig_height == r.fig_height);
    assert(l.dpi == r.dpi);
    assert(l.fig_format == r.fig_format);
    assert(l.layout == r.layout);
    assert(l.warnings_visibility == r.warnings_visibility);
    assert(l.gutter == r.gutter);
    assert(l.code_background == r.code_background);
    assert(l.code_stroke == r.code_stroke);
    assert(l.code_radius == r.code_radius);
    assert(l.code_inset == r.code_inset);
    assert(l.output_background == r.output_background);
    assert(l.output_stroke == r.output_stroke);
    assert(l.output_radius == r.output_radius);
    assert(l.output_inset == r.output_inset);
    assert(l.warning_background == r.warning_background);
    assert(l.warning_stroke == r.warning_stroke);
    assert(l.warning_radius == r.warning_radius);
    assert(l.warning_inset == r.warning_inset);
    assert(l.width_ratio == r.width_ratio);
    assert(l.align == r.align);
    assert(l.depends == r.depends);
    assert(l.freeze == r.freeze);
}

/// Applying the same defaults a second time changes nothing.
pub proof fn law_defaults_apply_once(defaults: OptionsV, options: OptionsV)
    ensures
        overlay_v(defaults, overlay_v(defaults, options)) == overlay_v(defaults, options),
{
    let l = overlay_v(defaults, overlay_v(defaults, options));
    let r = overlay_v(defaults, options);
    assert(l.depends == r.depends);
    assert(l.freeze == r.freeze);
}

/// `256` to the power `k`: the numbers that `k` bytes can hold.
pub open spec fn byte_range(k: nat) -> nat
    decreases k,
{
    if k == 0 {
        1
    } else {
        256 * byte_range((k - 1) as nat)
    }
}

/// Every field is shorter than 2^64 bytes, as a field held in memory is.
pub open spec fn fields_fit(fields: Seq<Seq<u8>>) -> bool {
    forall|i: int| 0 <= i < fields.len() ==> #[trigger] fields[i].len() < 0x1_0000_0000_0000_0000
}

/// `k` little-endian bytes have length `k`.
proof fn lemma_le_bytes_len(n: nat, k: nat)
    ensures
        le_bytes(n, k).len() == k,
    decreases k,
{
    if k > 0 {
        lemma_le_bytes_len(n / 256, (k - 1) as nat);
    }
}

/// Numbers that fit `k` bytes have different little-endian encodings.
proof fn lemma_le_bytes_injective(n: nat, m: nat, k: nat)
    requires
        n < byte_range(k),
        m < byte_range(k),
        le_bytes(n, k) == le_bytes(m, k),
    ensures
        n == m,
    decreases k,
{
    if k > 0 {
        let b = byte_range((k - 1) as nat);
        assert(le_bytes(n, k) == seq![(n % 256) as u8] + le_bytes(n / 256, (k - 1) as nat));
        assert(le_bytes(m, k) == seq![(m % 256) as u8] + le_bytes(m / 256, (k - 1) as nat));
        assert(le_bytes(n, k)[0] == (n % 256) as u8);
        assert(le_bytes(m, k)[0] == (m % 256) as u8);
        lemma_le_bytes_len(n / 256, (k - 1) as nat);
        lemma_le_bytes_len(m / 256, (k - 1) as nat);
        assert(le_bytes(n, k).drop_first() =~= le_bytes(n / 256, (k - 1) as nat));
        assert(le_bytes(m, k).drop_first() =~= le_bytes(m / 256, (k - 1) as nat));
        assert(n / 256 < b) by (nonlinear_arith)
            requires
                n < 256 * b,
        ;
        assert(m / 256 < b) by (nonlinear_arith)
            requires
                m < 256 * b,
        ;
        lemma_le_bytes_injective(n / 256, m / 256, (k - 1) as nat);
        assert((n % 256) as u8 == (m % 256) as u8);
        assert(n % 256 == m % 256);
        assert(n == 256 * (n / 256) + n % 256) by (nonlinear_arith);
        assert(m == 256 * (m / 256) + m % 256) by (nonlinear_arith);
    }
}

/// A framed list of fields is at least as long as its first length prefix.
proof fn lemma_frame_nonempty(fields: Seq<Seq<u8>>)
    requires
        fields.len() > 0,
    ensures
        frame(fields).len() >= 8 + fields[0].len(),
        frame(fields).subrange(0, 8) == le_bytes(fields[0].len(), 8),
        frame(fields).subrange(8, 8 + fields[0].len() as int) == fields[0],
        frame(fields).skip(8 + fields[0].len() as int) == frame(fields.drop_first()),
{
    lemma_le_bytes_len(fields[0].len(), 8);
    let f = frame(fields);
    assert(f == le_bytes(fields[0].len(), 8) + fields[0] + frame(fields.drop_first()));
    assert(f.subrange(0, 8) =~= le_bytes(fields[0].len(), 8));
    assert(f.subrange(8, 8 + fields[0].len() as int) =~= fields[0]);
    assert(f.skip(8 + fields[0].len() as int) =~= frame(fields.drop_first()));
}

/// The bytes hashed for a list of fields determine the fields: different
/// lists of fields (each shorter than 2^64 bytes) are never framed into the
/// same bytes, so two execution identities hash the same input only when
/// they are made of the same fields.
pub proof fn law_framing_is_injective(a: Seq<Seq<u8>>, b: Seq<Seq<u8>>)
    requires
        fields_fit(a),
        fields_fit(b),
        frame(a) == frame(b),
    ensures
        a == b,
    decreases a.len(),
{
    assert(byte_range(8) == 0x1_0000_0000_0000_0000) by {
        reveal_with_fuel(byte_range, 9);
    }
    if a.len() == 0 {
        if b.len() > 0 {
            lemma_frame_nonempty(b);
        }
        assert(b =~= a);
    } else {
        lemma_frame_nonempty(a);
        if b.len() == 0 {
            assert(frame(b).len() == 0);
        } else {
            lemma_frame_nonempty(b);
            assert(a[0].len() < 0x1_0000_0000_0000_0000);
            assert(b[0].len() < 0x1_0000_0000_0000_0000);
            lemma_le_bytes_injective(a[0].len(), b[0].len(), 8);
            assert(a[0] == b[0]);
            assert forall|i: int| 0 <= i < a.drop_first().len() implies #[trigger] a.drop_first()[i].len()
                < 0x1_0000_0000_0000_0000 by {
                assert(a.drop_first()[i] == a[i + 1]);
            }
            assert forall|i: int| 0 <= i < b.drop_first().len() implies #[trigger] b.drop_first()[i].len()
                < 0x1_0000_0000_0000_0000 by {
                assert(b.drop_first()[i] == b[i + 1]);
            }
            law_framing_is_injective(a.drop_first(), b.drop_first());
            assert(a =~= b) by {
                assert(a == seq![a[0]] + a.drop_first());
                assert(b == seq![b[0]] + b.drop_first());
            }
        }
    }
}

/// What a chunk's execution identity hashes determines everything it is made
/// of: the language, the code, the options that affect execution, the
/// frozen objects, the previous identity of its language (so every earlier
/// chunk of that language), the dependencies and the helper scripts. Change
/// any of them and the bytes hashed change (each field shorter than 2^64
/// bytes).
pub proof fn law_chunk_identity_determines_its_inputs(
    language: (Seq<char>, Seq<char>),
    code: (Seq<char>, Seq<char>),
    options: (ChunkOptions, ChunkOptions),
    previous_hash: (Seq<char>, Seq<char>),
    dependencies_hash: (Seq<char>, Seq<char>),
    scripts_version: (Seq<char>, Seq<char>),
)
    requires
        fields_fit(
            chunk_identity(language.0, code.0, options.0, previous_hash.0, dependencies_hash.0, scripts_version.0),
        ),
        fields_fit(
            chunk_identity(language.1, code.1, options.1, previous_hash.1, dependencies_hash.1, scripts_version.1),
        ),
        frame(
            chunk_identity(language.0, code.0, options.0, previous_hash.0, dependencies_hash.0, scripts_version.0),
        ) == frame(
            chunk_identity(language.1, code.1, options.1, previous_hash.1, dependencies_hash.1, scripts_version.1),
        ),
    ensures
        language.0 == language.1,
        code.0 == code.1,
        execution_options_text(options.0) == execution_options_text(options.1),
        freeze_hash(options.0.freeze@) == freeze_hash(options.1.freeze@),
        previous_hash.0 == previous_hash.1,
        dependencies_hash.0 == dependencies_hash.1,
        scripts_version.0 == scripts_version.1,
{
    let a = chunk_identity(language.0, code.0, options.0, previous_hash.0, dependencies_hash.0, scripts_version.0);
    let b = chunk_identity(language.1, code.1, options.1, previous_hash.1, dependencies_hash.1, scripts_version.1);
    law_framing_is_injective(a, b);
    assert(a[2] == b[2] && a[3] == b[3] && a[4] == b[4] && a[5] == b[5]);
    assert(a[6] == b[6] && a[7] == b[7] && a[8] == b[8]);
    encode_utf8_decode_utf8(language.0);
    encode_utf8_decode_utf8(language.1);
    encode_utf8_decode_utf8(code.0);
    encode_utf8_decode_utf8(code.1);
    encode_utf8_decode_utf8(execution_options_text(options.0));
    encode_utf8_decode_utf8(execution_options_text(options.1));
    encode_utf8_decode_utf8(freeze_hash(options.0.freeze@));
    encode_utf8_decode_utf8(freeze_hash(options.1.freeze@));
    encode_utf8_decode_utf8(previous_hash.0);
    encode_utf8_decode_utf8(previous_hash.1);
    encode_utf8_decode_utf8(dependencies_hash.0);
    encode_utf8_decode_utf8(dependencies_hash.1);
    encode_utf8_decode_utf8(scripts_version.0);
    encode_utf8_decode_utf8(scripts_version.1);
}

/// A chunk and an inline expression never hash the same bytes: their
/// identities are made of different numbers of fields.
pub proof fn law_chunk_and_inline_identities_differ(
    language: Seq<char>,
    code: Seq<char>,
    options: ChunkOptions,
    previous_hash: Seq<char>,
    dependencies_hash: Seq<char>,
    scripts_version: Seq<char>,
    inline_language: Seq<char>,
    inline_code: Seq<char>,
    inline_options: InlineOptions,
    inline_previous_hash: Seq<char>,
)
    requires
        fields_fit(
            chunk_identity(language, code, options, previous_hash, dependencies_hash, scripts_version),
        ),
        fields_fit(inline_identity(inline_language, inline_code, inline_options, inline_previous_hash)),
    ensures
        frame(chunk_identity(language, code, options, previous_hash, dependencies_hash, scripts_version))
            != frame(inline_identity(inline_language, inline_code, inline_options, inline_previous_hash)),
{
    let a = chunk_identity(language, code, options, previous_hash, dependencies_hash, scripts_version);
    let b = inline_identity(inline_language, inline_code, inline_options, inline_previous_hash);
    if frame(a) == frame(b) {
        law_framing_is_injective(a, b);
        assert(a.len() != b.len());
    }
}

/// Saving the result or the error of a chunk (see `Cache::save_result` and
/// `Cache::save_error`, which replace the chunk's entries by the new one)
/// makes the new entry the one found for its identity, unless the entry of
/// another chunk has the same identity.
pub proof fn law_chunk_cache_read_after_write(
    before: Seq<ChunkCacheEntry>,
    after: Seq<ChunkCacheEntry>,
    index: usize,
    h: Seq<char>,
)
    requires
        after.len() > 0,
        after.drop_last() == chunks_without(before, index),
        after.last().hash@ == h,
        forall|k: int|
            0 <= k < chunks_without(before, index).len() ==> #[trigger] chunks_without(
                before,
                index,
            )[k].hash@ != h,
    ensures
        chunk_position(after, h) == Some(after.len() - 1),
{
    let n = after.len() - 1;
    let w = chunks_without(before, index);
    assert forall|j: int| 0 <= j < n implies #[trigger] after[j].hash@ != h by {
        assert(after[j] == after.drop_last()[j]);
        assert(w[j].hash@ != h);
    }
    assert(0 <= n < after.len() && after[n].hash@ == h && forall|j: int|
        0 <= j < n ==> #[trigger] after[j].hash@ != h);
}

} // verus!
