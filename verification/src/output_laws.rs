//! Properties of what a chunk shows: the layout argument of its rendered
//! call and the text collected from its outputs.
use crate::ast::{Layout, ResolvedV, Show};
use crate::backend::presentation_args;
use crate::executors::{collect, shown_result, OutputMetadata, ResultV};
use crate::text::join;
use vstd::prelude::*;

verus! {

/// With code and output both shown, the first argument of a chunk's
/// presentation names its layout: `layout: "vertical"` exactly when the
/// layout is vertical, `layout: "horizontal"` exactly when it is
/// horizontal.
pub proof fn law_layout_argument_names_the_layout(o: ResolvedV)
    requires
        o.show is Both,
    ensures
        presentation_args(o).len() > 0,
        presentation_args(o)[0] == "layout: \"vertical\""@ <==> o.layout is Vertical,
        presentation_args(o)[0] == "layout: \"horizontal\""@ <==> o.layout is Horizontal,
{
    reveal_strlit("layout: ");
    reveal_strlit("\"");
    reveal_strlit("vertical");
    reveal_strlit("horizontal");
    reveal_strlit("layout: \"vertical\"");
    reveal_strlit("layout: \"horizontal\"");
    let first = presentation_args(o)[0];
    match o.layout {
        Layout::Vertical => {
            assert(first =~= "layout: \"vertical\""@);
        },
        Layout::Horizontal => {
            assert(first =~= "layout: \"horizontal\""@);
        },
    }
    assert("layout: \"vertical\""@.len() != "layout: \"horizontal\""@.len());
}

/// The texts a chunk reported, in order.
pub open spec fn reported_texts(rs: Seq<OutputMetadata>) -> Seq<Seq<char>>
    decreases rs.len(),
{
    if rs.len() == 0 {
        Seq::empty()
    } else {
        let t = reported_texts(rs.drop_last());
        match rs.last() {
            OutputMetadata::Text { content } => t.push(content@),
            _ => t,
        }
    }
}

/// Whether a chunk reported neither a figure nor a table.
pub open spec fn no_figure_or_table(rs: Seq<OutputMetadata>) -> bool {
    forall|i: int|
        0 <= i < rs.len() ==> !((#[trigger] rs[i]) is Plot) && !(rs[i] is DataFrame)
}

/// A chunk that reported text outputs, the first of them not empty, and
/// neither a figure nor a table, shows its text outputs, in order, joined
/// by line breaks.
pub proof fn law_text_outputs_are_joined_in_order(rs: Seq<OutputMetadata>, stdout: Seq<char>)
    requires
        reported_texts(rs).len() > 0,
        reported_texts(rs)[0].len() > 0,
        no_figure_or_table(rs),
    ensures
        shown_result(collect(rs, rs.len() as int), stdout) == ResultV::Text(
            join(reported_texts(rs), "\n"@),
        ),
{
    lemma_collected_text(rs, rs.len() as int);
    assert(rs.take(rs.len() as int) =~= rs);
    reveal_strlit("\n");
}

/// The text collected from the first `k` outputs, while no figure or table
/// came: their texts joined by line breaks once the first one is not empty.
proof fn lemma_collected_text(rs: Seq<OutputMetadata>, k: int)
    requires
        0 <= k <= rs.len(),
        no_figure_or_table(rs),
    ensures
        collect(rs, k).plot is None,
        collect(rs, k).dataframe is None,
        reported_texts(rs.take(k)).len() > 0 && reported_texts(rs.take(k))[0].len() > 0
            ==> collect(rs, k).text == join(reported_texts(rs.take(k)), "\n"@) && collect(
            rs,
            k,
        ).text.len() > 0,
        reported_texts(rs.take(k)).len() == 0 ==> collect(rs, k).text.len() == 0,
    decreases k,
{
    if k > 0 {
        lemma_collected_text(rs, k - 1);
        let t = rs.take(k);
        assert(t.drop_last() =~= rs.take(k - 1));
        assert(t.last() == rs[k - 1]);
        let before = reported_texts(rs.take(k - 1));
        match rs[k - 1] {
            OutputMetadata::Text { content } => {
                assert(reported_texts(t) == before.push(content@));
                if before.len() > 0 {
                    assert(before.push(content@)[0] == before[0]);
                    assert(before.push(content@).drop_last() =~= before);
                } else {
                    assert(before.push(content@) =~= seq![content@]);
                }
            },
            OutputMetadata::DataExport { .. } => {
                assert(reported_texts(t) == before);
            },
            OutputMetadata::Plot { .. } => {
                assert(!(rs[k - 1] is Plot));
            },
            OutputMetadata::DataFrame { .. } => {
                assert(!(rs[k - 1] is DataFrame));
            },
        }
    } else {
        assert(rs.take(0) =~= Seq::<OutputMetadata>::empty());
    }
}

} // verus!
