//! Where navigation lands past a replaced range: the verbatim lines after a
//! chunk's rendering and the source lines after the chunk.
use crate::sync::{
    block_named, enclosing_among, knot_to_typ, knot_walk, path_join, range_source_end, slashes,
    source_length, typ_to_knot, typ_walk, BlockV,
};
use vstd::prelude::*;

verus! {

/// A generated line `t` of block `i` that lies after the replaced range `k`
/// (and after every range before it, before the next one) is a verbatim
/// line: it shows the source line as far past the range's last source line
/// `e` as `t` is past the range's last generated line. Nothing is shown for
/// a line past the end of the source.
pub proof fn law_generated_line_after_a_range(
    t: nat,
    bs: Seq<BlockV>,
    root: Seq<char>,
    disk_lines: Option<nat>,
    i: int,
    k: int,
    e: nat,
)
    requires
        enclosing_among(t, bs, bs.len() as int) == Some(i),
        0 <= i < bs.len(),
        0 <= k < bs[i].chunks.len(),
        forall|j: int|
            0 <= j <= k ==> (#[trigger] bs[i].chunks[j]).start_line <= t && bs[i].chunks[j].end_line < t,
        forall|j: int| 0 <= j < k ==> (#[trigger] range_source_end(bs[i], j, disk_lines)) is Some,
        range_source_end(bs[i], k, disk_lines) == Some(e),
        k + 1 < bs[i].chunks.len() ==> t < bs[i].chunks[k + 1].start_line,
    ensures
        ({
            let line = e + (t - bs[i].chunks[k].end_line - 1);
            typ_to_knot(t, bs, root, disk_lines) == if source_length(bs[i], disk_lines) matches Some(
                len,
            ) && line >= len {
                None
            } else {
                Some((path_join(root, slashes(bs[i].file)), line as nat))
            }
        }),
{
    let b = bs[i];
    lemma_typ_walk_past(b, t, 0, (t - b.start_line - 1) as nat, disk_lines, k, e);
}

/// Walking the ranges from `j` up to `k`, all before `t`, ends where the
/// walk past range `k` starts, whatever line the walk carried.
proof fn lemma_typ_walk_past(
    b: BlockV,
    t: nat,
    j: int,
    s: nat,
    disk_lines: Option<nat>,
    k: int,
    e: nat,
)
    requires
        0 <= j <= k < b.chunks.len(),
        forall|x: int| 0 <= x <= k ==> (#[trigger] b.chunks[x]).start_line <= t && b.chunks[x].end_line < t,
        forall|x: int| 0 <= x < k ==> (#[trigger] range_source_end(b, x, disk_lines)) is Some,
        range_source_end(b, k, disk_lines) == Some(e),
        k + 1 < b.chunks.len() ==> t < b.chunks[k + 1].start_line,
    ensures
        ({
            let line = (e + (t - b.chunks[k].end_line - 1)) as nat;
            typ_walk(b, t, j, s, disk_lines) == match source_length(b, disk_lines) {
                Some(len) => if line >= len {
                    None
                } else {
                    Some(line)
                },
                None => Some(line),
            }
        }),
    decreases k - j,
{
    let r = b.chunks[j];
    assert(r.start_line <= t && r.end_line < t);
    let ej = range_source_end(b, j, disk_lines)->0;
    let next = (ej + t - r.end_line - 1) as nat;
    assert(typ_walk(b, t, j, s, disk_lines) == typ_walk(b, t, j + 1, next, disk_lines));
    if j < k {
        lemma_typ_walk_past(b, t, j + 1, next, disk_lines, k, e);
    }
}

/// A source line `l` of the file of block `i` that lies after the replaced
/// range `k` (after the source of every range up to `k`, before the next
/// range's) is shown verbatim: as far past the line after the range's last
/// generated line as `l` is past the range's last source line `e`, when
/// that line is still in the block.
pub proof fn law_source_line_after_a_range(
    file: Seq<char>,
    l: nat,
    bs: Seq<BlockV>,
    disk_lines: Option<nat>,
    i: int,
    k: int,
    e: nat,
)
    requires
        block_named(bs, file, 0) == Some(i),
        0 <= i < bs.len(),
        source_length(bs[i], disk_lines) matches Some(len) ==> l < len,
        0 <= k < bs[i].chunks.len(),
        forall|j: int|
            0 <= j <= k ==> (#[trigger] bs[i].chunks[j]).knot_line > 0 && bs[i].chunks[j].knot_line
                - 1 <= l,
        forall|j: int|
            0 <= j <= k ==> (#[trigger] range_source_end(bs[i], j, disk_lines)) is Some
                && range_source_end(bs[i], j, disk_lines)->0 <= l,
        range_source_end(bs[i], k, disk_lines) == Some(e),
        k + 1 < bs[i].chunks.len() ==> bs[i].chunks[k + 1].knot_line > 0 && l < bs[i].chunks[k
            + 1].knot_line - 1,
    ensures
        ({
            let line = bs[i].chunks[k].end_line + 1 + (l - e);
            knot_to_typ(file, l, bs, disk_lines) == if line < bs[i].end_line {
                Some(line as nat)
            } else {
                None
            }
        }),
{
    let b = bs[i];
    lemma_knot_walk_past(b, l, 0, b.start_line + 1 + l, disk_lines, k, e);
}

/// Walking the ranges from `j` up to `k`, whose sources all end by `l`,
/// ends where the walk past range `k` lands, whatever line the walk
/// carried.
proof fn lemma_knot_walk_past(
    b: BlockV,
    l: nat,
    j: int,
    x: nat,
    disk_lines: Option<nat>,
    k: int,
    e: nat,
)
    requires
        0 <= j <= k < b.chunks.len(),
        forall|y: int|
            0 <= y <= k ==> (#[trigger] b.chunks[y]).knot_line > 0 && b.chunks[y].knot_line - 1 <= l,
        forall|y: int|
            0 <= y <= k ==> (#[trigger] range_source_end(b, y, disk_lines)) is Some && range_source_end(
                b,
                y,
                disk_lines,
            )->0 <= l,
        range_source_end(b, k, disk_lines) == Some(e),
        k + 1 < b.chunks.len() ==> b.chunks[k + 1].knot_line > 0 && l < b.chunks[k + 1].knot_line
            - 1,
    ensures
        ({
            let line = b.chunks[k].end_line + 1 + (l - e);
            knot_walk(b, l, j, x, disk_lines) == if line < b.end_line {
                Some(line as nat)
            } else {
                None
            }
        }),
    decreases k - j,
{
    let r = b.chunks[j];
    assert(r.knot_line > 0 && r.knot_line - 1 <= l);
    assert(range_source_end(b, j, disk_lines) is Some);
    let ej = range_source_end(b, j, disk_lines)->0;
    let next = (r.end_line + 1 + (l - ej)) as nat;
    assert(knot_walk(b, l, j, x, disk_lines) == knot_walk(b, l, j + 1, next, disk_lines));
    if j < k {
        lemma_knot_walk_past(b, l, j + 1, next, disk_lines, k, e);
    }
}

} // verus!
