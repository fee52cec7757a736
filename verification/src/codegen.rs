//! Generation of the Typst document: each chunk block of the source is
//! replaced by the Typst code compiled for it.
use crate::ast::Chunk;
use crate::text::{byte_offsets, char_index, enc_len, extend, is_boundary, slice, string_of};
use vstd::prelude::*;

verus! {

/// Collects the Typst code compiled for each chunk, in document order.
pub struct CodeGenerator {
    /// The generated Typst code for each chunk.
    compiled_chunks: Vec<String>,
}

/// Character index, in `src`, where the `k`-th chunk block begins.
pub open spec fn block_start(src: Seq<char>, chunks: Seq<Chunk>, k: int) -> int {
    char_index(src, chunks[k].start_byte as int)
}

/// Character index, in `src`, just after the `k`-th chunk block.
pub open spec fn block_end(src: Seq<char>, chunks: Seq<Chunk>, k: int) -> int {
    char_index(src, chunks[k].end_byte as int)
}

/// Where the text before the `k`-th block begins: after the block before
/// it, or at the start.
pub open spec fn gap_start(src: Seq<char>, chunks: Seq<Chunk>, k: int) -> int {
    if k == 0 {
        0
    } else {
        block_end(src, chunks, k - 1)
    }
}

/// The replacement of a block: the code compiled for it, or nothing.
pub open spec fn replacement(compiled: Seq<String>, k: int) -> Seq<char> {
    if k < compiled.len() {
        compiled[k]@
    } else {
        Seq::empty()
    }
}

/// The source up to the end of its `k`-th block, with the first `k` blocks
/// replaced.
pub open spec fn replaced_prefix(src: Seq<char>, chunks: Seq<Chunk>, compiled: Seq<String>, k: int) -> Seq<
    char,
>
    decreases k,
{
    if k <= 0 {
        Seq::empty()
    } else {
        replaced_prefix(src, chunks, compiled, k - 1) + src.subrange(
            gap_start(src, chunks, k - 1),
            block_start(src, chunks, k - 1),
        ) + replacement(compiled, k - 1)
    }
}

/// The source with every chunk block replaced by its compiled code.
pub open spec fn generated(src: Seq<char>, chunks: Seq<Chunk>, compiled: Seq<String>) -> Seq<char> {
    replaced_prefix(src, chunks, compiled, chunks.len() as int) + src.subrange(
        gap_start(src, chunks, chunks.len() as int),
        src.len() as int,
    )
}

/// The blocks of `chunks` lie in `src` in order, without overlap, each
/// bounded by character boundaries.
pub open spec fn blocks_in_order(src: Seq<char>, chunks: Seq<Chunk>) -> bool {
    &&& forall|k: int|
        0 <= k < chunks.len() ==> is_boundary(src, (#[trigger] chunks[k]).start_byte as int)
            && is_boundary(src, chunks[k].end_byte as int) && chunks[k].start_byte
            <= chunks[k].end_byte
    &&& forall|k: int|
        0 < k < chunks.len() ==> chunks[k - 1].end_byte <= (#[trigger] chunks[k]).start_byte
}

impl CodeGenerator {
    /// The code compiled so far, in order.
    pub closed spec fn compiled(&self) -> Seq<String> {
        self.compiled_chunks@
    }

    /// A generator with no compiled chunk.
    pub fn new() -> (r: Self)
        ensures
            r.compiled().len() == 0,
    {
        CodeGenerator { compiled_chunks: Vec::new() }
    }

    /// Records the code compiled for the next chunk.
    pub fn add_chunk_result(&mut self, result: String)
        ensures
            final(self).compiled() == old(self).compiled().push(result),
    {
        self.compiled_chunks.push(result);
    }

    /// The source with its chunk blocks (`chunks`, as parsed from it)
    /// replaced, in order, by the compiled code; a block with no compiled
    /// code is removed.
    pub fn generate(&self, source: &str, chunks: &Vec<Chunk>) -> (r: String)
        requires
            blocks_in_order(source@, chunks@),
        ensures
            r@ == generated(source@, chunks@, self.compiled()),
    {
        let (cs, off) = byte_offsets(source);
        let mut out: Vec<char> = Vec::new();
        let mut last: usize = 0;
        let mut k: usize = 0;
        while k < chunks.len()
            invariant
                k <= chunks@.len(),
                cs@ == source@,
                off@.len() == source@.len() + 1,
                forall|j: int| 0 <= j <= source@.len() ==> #[trigger] off@[j] == enc_len(
                    source@.take(j),
                ),
                blocks_in_order(source@, chunks@),
                last as int == gap_start(source@, chunks@, k as int),
                last <= cs@.len(),
                k > 0 ==> chunks@[k - 1].end_byte as int == enc_len(source@.take(last as int)),
                out@ == replaced_prefix(source@, chunks@, self.compiled(), k as int),
            decreases chunks.len() - k,
        {
            let s = char_pos(&off, chunks[k].start_byte, Ghost(source@));
            let e = char_pos(&off, chunks[k].end_byte, Ghost(source@));
            proof {
                if k > 0 {
                    crate::text::lemma_char_index(source@, last as int);
                    if s < last {
                        crate::text::lemma_enc_len_mono(source@, s as int, last as int);
                    }
                } else {
                    if s < last {
                    }
                }
                if e < s {
                    crate::text::lemma_enc_len_mono(source@, e as int, s as int);
                }
            }
            let gap = slice(&cs, last, s);
            extend(&mut out, &gap);
            if k < self.compiled_chunks.len() {
                let c = crate::text::chars_of(self.compiled_chunks[k].as_str());
                extend(&mut out, &c);
            }
            last = e;
            k = k + 1;
        }
        let tail = slice(&cs, last, cs.len());
        extend(&mut out, &tail);
        string_of(&out)
    }
}

/// The character index of the boundary `b` of `src`, given the byte offset
/// `off[k]` of every character index `k`.
fn char_pos(off: &Vec<usize>, b: usize, Ghost(src): Ghost<Seq<char>>) -> (r: usize)
    requires
        is_boundary(src, b as int),
        off@.len() == src.len() + 1,
        forall|j: int| 0 <= j <= src.len() ==> #[trigger] off@[j] == enc_len(src.take(j)),
    ensures
        r as int == char_index(src, b as int),
        r <= src.len(),
        enc_len(src.take(r as int)) == b,
{
    match crate::text::char_at_byte(off, b) {
        Some(k) => {
            proof {
                crate::text::lemma_char_index(src, k as int);
            }
            k
        },
        None => {
            proof {
                let k = choose|k: int| 0 <= k <= src.len() && enc_len(src.take(k)) == b;
                assert(off@[k] == b);
            }
            0
        },
    }
}

} // verus!
