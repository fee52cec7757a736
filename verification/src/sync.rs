//! Line-based navigation between a generated Typst document and its sources.
//!
//! The generated document wraps each source in `// BEGIN-FILE` and
//! `// END-FILE` lines and every replaced range (a rendered chunk, an included
//! file) in `// #KNOT-SYNC` or `// #KNOT-INJECTION-START` markers. Parsing these
//! markers back gives the blocks used to map a line of one side to the other.
use crate::text::{
    all_digits, chars_of, find_char_at, find_char_from, join, join_chars, matches_at, decimal, digits_value, extend, has_prefix, is_digit, is_ws, lines,
    push_decimal, push_str, same_chars, slice, spells, split_lines, starts_with, string_of, trim,
    trim_bounds, trim_start,
};
use vstd::prelude::*;

verus! {

/// First line of generated Typst documents.
pub const GENERATED_MARKER: &'static str = "// #KNOT-GENERATED version=1";

// ---------------------------------------------------------------------------
// Data
// ---------------------------------------------------------------------------

/// A replaced source range and its generated line range, markers included.
#[derive(Debug, Clone)]
pub struct ChunkMarker {
    /// Project-relative source name, or `INJECTION` for included content.
    pub source: String,
    /// First source line, 1-based.
    pub knot_line: usize,
    /// Last source line, 1-based; absent in older generated files.
    pub source_end_line: Option<usize>,
    /// First generated line, 0-based.
    pub start_line: usize,
    /// Last generated line, 0-based.
    pub end_line: usize,
    /// First generated content line (after the opening marker of a chunk).
    pub content_line: usize,
}

/// A source file in the assembled document.
#[derive(Debug, Clone)]
pub struct FileBlock {
    /// Source path relative to the project root.
    pub file: String,
    /// Line of the opening marker, 0-based.
    pub start_line: usize,
    /// Line of the closing marker, 0-based.
    pub end_line: usize,
    /// Source length at compilation time; absent in legacy output.
    pub source_lines: Option<usize>,
    /// Replaced ranges in generated order.
    pub chunks: Vec<ChunkMarker>,
}

/// Mathematical value of a [`ChunkMarker`].
pub struct MarkerV {
    pub source: Seq<char>,
    pub knot_line: nat,
    pub source_end_line: Option<nat>,
    pub start_line: nat,
    pub end_line: nat,
    pub content_line: nat,
}

/// Mathematical value of a [`FileBlock`].
pub struct BlockV {
    pub file: Seq<char>,
    pub start_line: nat,
    pub end_line: nat,
    pub source_lines: Option<nat>,
    pub chunks: Seq<MarkerV>,
}

/// An `Option<usize>` read as an `Option<nat>`.
pub open spec fn opt_nat(o: Option<usize>) -> Option<nat> {
    match o {
        Some(n) => Some(n as nat),
        None => None,
    }
}

impl View for ChunkMarker {
    type V = MarkerV;

    open spec fn view(&self) -> MarkerV {
        MarkerV {
            source: self.source@,
            knot_line: self.knot_line as nat,
            source_end_line: opt_nat(self.source_end_line),
            start_line: self.start_line as nat,
            end_line: self.end_line as nat,
            content_line: self.content_line as nat,
        }
    }
}

impl View for FileBlock {
    type V = BlockV;

    open spec fn view(&self) -> BlockV {
        BlockV {
            file: self.file@,
            start_line: self.start_line as nat,
            end_line: self.end_line as nat,
            source_lines: opt_nat(self.source_lines),
            chunks: self.chunks@.map_values(|m: ChunkMarker| m@),
        }
    }
}

/// Values of a sequence of blocks.
pub open spec fn blocks_view(v: Seq<FileBlock>) -> Seq<BlockV> {
    v.map_values(|b: FileBlock| b@)
}

// ---------------------------------------------------------------------------
// Marker lines
// ---------------------------------------------------------------------------

/// Value of a digit string, when it fits in a `usize`.
pub open spec fn parse_number(d: Seq<char>) -> Option<nat> {
    if all_digits(d) && digits_value(d) <= usize::MAX {
        Some(digits_value(d))
    } else {
        None
    }
}

/// Length of the run of ASCII digits at the start of `s`.
pub open spec fn digit_run(s: Seq<char>) -> nat
    decreases s.len(),
{
    if s.len() > 0 && is_digit(s[0]) {
        1 + digit_run(s.drop_first())
    } else {
        0
    }
}

/// `// BEGIN-FILE <file>`: the file name, non-empty.
pub open spec fn begin_file(line: Seq<char>) -> Option<Seq<char>> {
    let p = "// BEGIN-FILE "@;
    if starts_with(line, p) && line.len() > p.len() {
        Some(line.skip(p.len() as int))
    } else {
        None
    }
}

/// Position of a ` lines=<digits>` ending of `r`, if it has one.
pub open spec fn lines_suffix_at(r: Seq<char>) -> Option<int> {
    let q = " lines="@;
    let d = digit_run_back(r);
    let p = r.len() - d - q.len();
    if d > 0 && p >= 1 && r.subrange(p, p + q.len()) == q {
        Some(p)
    } else {
        None
    }
}

/// Length of the run of ASCII digits at the end of `s`.
pub open spec fn digit_run_back(s: Seq<char>) -> nat
    decreases s.len(),
{
    if s.len() > 0 && is_digit(s.last()) {
        1 + digit_run_back(s.drop_last())
    } else {
        0
    }
}

/// `// END-FILE <file>` with an optional ` lines=<n>` ending: the file name
/// (the shortest one that leaves a well-formed ending) and the length, when
/// the digits fit in a `usize`.
pub open spec fn end_file(line: Seq<char>) -> Option<(Seq<char>, Option<nat>)> {
    let p = "// END-FILE "@;
    if starts_with(line, p) && line.len() > p.len() {
        let r = line.skip(p.len() as int);
        match lines_suffix_at(r) {
            Some(k) => Some((r.take(k), parse_number(r.skip(k + " lines="@.len())))),
            None => Some((r, None)),
        }
    } else {
        None
    }
}

/// ` line=<digits>` optionally followed by ` end=<digits>`, exactly.
pub open spec fn sync_tail(s: Seq<char>) -> Option<(Seq<char>, Option<Seq<char>>)> {
    if !starts_with(s, " line="@) {
        None
    } else {
        let u = s.skip(" line="@.len() as int);
        let n = digit_run(u);
        let rest = u.skip(n as int);
        if n == 0 {
            None
        } else if rest.len() == 0 {
            Some((u.take(n as int), None))
        } else if starts_with(rest, " end="@) && all_digits(rest.skip(" end="@.len() as int)) {
            Some((u.take(n as int), Some(rest.skip(" end="@.len() as int))))
        } else {
            None
        }
    }
}

/// The largest split `k <= from`, `k >= 1`, of `rest` into a source name and
/// a well-formed ending.
pub open spec fn sync_split(rest: Seq<char>, from: int) -> Option<int>
    decreases from,
{
    if from < 1 {
        None
    } else if sync_tail(rest.skip(from)) is Some {
        Some(from)
    } else {
        sync_split(rest, from - 1)
    }
}

/// `// #KNOT-SYNC source=<source> line=<n>[ end=<m>]`, after optional white
/// space: source (the longest that fits), line (0 when the digits do not fit)
/// and end.
pub open spec fn sync_marker(line: Seq<char>) -> Option<(Seq<char>, nat, Option<nat>)> {
    let t = trim_start(line);
    let p = "// #KNOT-SYNC source="@;
    if !starts_with(t, p) {
        None
    } else {
        let rest = t.skip(p.len() as int);
        match sync_split(rest, rest.len() as int) {
            None => None,
            Some(k) => {
                let (d1, d2) = sync_tail(rest.skip(k)).unwrap();
                Some(
                    (
                        rest.take(k),
                        match parse_number(d1) {
                            Some(n) => n,
                            None => 0,
                        },
                        match d2 {
                            Some(d) => parse_number(d),
                            None => None,
                        },
                    ),
                )
            },
        }
    }
}

/// `// #KNOT-INJECTION-START line=<n>` after optional white space: the line
/// (0 when the digits do not fit).
pub open spec fn injection_marker(line: Seq<char>) -> Option<nat> {
    let t = trim_start(line);
    let p = "// #KNOT-INJECTION-START line="@;
    if starts_with(t, p) && all_digits(t.skip(p.len() as int)) {
        Some(
            match parse_number(t.skip(p.len() as int)) {
                Some(n) => n,
                None => 0,
            },
        )
    } else {
        None
    }
}

/// A line closing a replaced range.
pub open spec fn closes_range(line: Seq<char>) -> bool {
    trim(line) == "// END-KNOT-SYNC"@ || trim(line) == "// #KNOT-INJECTION-END"@
}

// ---------------------------------------------------------------------------
// The parser as a state machine over lines
// ---------------------------------------------------------------------------

/// An open file block and the range being read inside it.
pub struct FrameV {
    pub block: BlockV,
    pub pending: Option<MarkerV>,
}

/// Completed blocks and the stack of open ones.
pub struct ParseV {
    pub blocks: Seq<BlockV>,
    pub stack: Seq<FrameV>,
}

/// Close the pending range of a frame at line `n`.
pub open spec fn finish_range(f: FrameV, n: nat) -> FrameV {
    match f.pending {
        Some(r) => FrameV {
            block: BlockV { chunks: f.block.chunks.push(MarkerV { end_line: n, ..r }), ..f.block },
            pending: None,
        },
        None => f,
    }
}

/// The effect of generated line number `n` on the state of the parser.
pub open spec fn step(st: ParseV, line: Seq<char>, n: nat) -> ParseV {
    match begin_file(line) {
        Some(file) => ParseV {
            blocks: st.blocks,
            stack: st.stack.push(
                FrameV {
                    block: BlockV {
                        file,
                        start_line: n,
                        end_line: 0,
                        source_lines: None,
                        chunks: Seq::empty(),
                    },
                    pending: None,
                },
            ),
        },
        None => match end_file(line) {
            Some((file, count)) => if st.stack.len() > 0 && st.stack.last().block.file == file {
                ParseV {
                    blocks: st.blocks.push(
                        BlockV { end_line: n, source_lines: count, ..st.stack.last().block },
                    ),
                    stack: st.stack.drop_last(),
                }
            } else {
                st
            },
            None => if st.stack.len() == 0 {
                st
            } else {
                let f = st.stack.last();
                let g = match sync_marker(line) {
                    Some((source, knot_line, end)) => FrameV {
                        pending: Some(
                            MarkerV {
                                source,
                                knot_line,
                                source_end_line: end,
                                start_line: n,
                                end_line: n,
                                content_line: n + 1,
                            },
                        ),
                        ..f
                    },
                    None => match injection_marker(line) {
                        Some(k) => FrameV {
                            pending: Some(
                                MarkerV {
                                    source: "INJECTION"@,
                                    knot_line: k,
                                    source_end_line: Some(k),
                                    start_line: n,
                                    end_line: n,
                                    content_line: n,
                                },
                            ),
                            ..f
                        },
                        None => if closes_range(line) {
                            finish_range(f, n)
                        } else {
                            f
                        },
                    },
                };
                ParseV { blocks: st.blocks, stack: st.stack.update(st.stack.len() - 1, g) }
            },
        },
    }
}

/// State after the first `k` lines.
pub open spec fn run(ls: Seq<Seq<char>>, k: nat) -> ParseV
    decreases k,
{
    if k == 0 {
        ParseV { blocks: Seq::empty(), stack: Seq::empty() }
    } else {
        step(run(ls, (k - 1) as nat), ls[k - 1], (k - 1) as nat)
    }
}

/// The complete file blocks of a generated document, in the order in which
/// they close (nested includes first).
pub open spec fn markers_of(content: Seq<char>) -> Seq<BlockV> {
    run(lines(content), lines(content).len()).blocks
}

// ---------------------------------------------------------------------------
// Reading marker lines
// ---------------------------------------------------------------------------

/// A longer run of digits never has a smaller value.
proof fn lemma_digits_prefix(s: Seq<char>, k: int)
    requires
        0 <= k <= s.len(),
    ensures
        digits_value(s.take(k)) <= digits_value(s),
    decreases s.len() - k,
{
    if k < s.len() {
        assert(s.drop_last() == s.take(s.len() - 1));
        lemma_digits_prefix(s.drop_last(), k);
        assert(s.drop_last().take(k) == s.take(k));
    } else {
        assert(s.take(k) == s);
    }
}

/// Value of the digits `v[from..to]`, when they are all digits and fit.
fn parse_digits(v: &Vec<char>, from: usize, to: usize) -> (r: Option<usize>)
    requires
        from <= to <= v.len(),
    ensures
        opt_nat(r) == parse_number(v@.subrange(from as int, to as int)),
{
    let ghost d = v@.subrange(from as int, to as int);
    if from == to {
        return None;
    }
    let mut value: usize = 0;
    let mut i: usize = from;
    while i < to
        invariant
            from <= i <= to <= v.len(),
            d == v@.subrange(from as int, to as int),
            forall|j: int| 0 <= j < i - from ==> is_digit(#[trigger] d[j]),
            value == digits_value(d.take(i - from)),
        decreases to - i,
    {
        let c = v[i];
        if !('0' <= c && c <= '9') {
            assert(!is_digit(d[i - from]));
            return None;
        }
        let digit = (c as u32 - '0' as u32) as usize;
        proof {
            let t = d.take(i - from + 1);
            assert(t.drop_last() == d.take(i - from));
            assert(t.last() == c);
        }
        if value > (usize::MAX - digit) / 10 {
            proof {
                assert(value * 10 + digit > usize::MAX) by (nonlinear_arith)
                    requires
                        value > (usize::MAX - digit) / 10,
                        digit <= 9,
                ;
                lemma_digits_prefix(d, i - from + 1);
            }
            return None;
        }
        proof {
            assert(value * 10 + digit <= usize::MAX) by (nonlinear_arith)
                requires
                    value <= (usize::MAX - digit) / 10,
                    digit <= 9,
            ;
        }
        value = value * 10 + digit;
        i = i + 1;
    }
    assert(d.take(to - from) == d);
    Some(value)
}

/// The digit run ending a sequence is measured from the last non-digit.
proof fn lemma_digit_run_back(s: Seq<char>, k: int)
    requires
        0 <= k <= s.len(),
        forall|j: int| k <= j < s.len() ==> is_digit(#[trigger] s[j]),
        k == 0 || !is_digit(s[k - 1]),
    ensures
        digit_run_back(s) == s.len() - k,
    decreases s.len() - k,
{
    if k < s.len() {
        assert(s.drop_last().len() == s.len() - 1);
        assert forall|j: int| k <= j < s.drop_last().len() implies is_digit(
            #[trigger] s.drop_last()[j],
        ) by {
            assert(s.drop_last()[j] == s[j]);
        }
        if k > 0 {
            assert(s.drop_last()[k - 1] == s[k - 1]);
        }
        lemma_digit_run_back(s.drop_last(), k);
    }
}

/// The digit run starting a sequence ends at the first non-digit.
proof fn lemma_digit_run(s: Seq<char>, k: int)
    requires
        0 <= k <= s.len(),
        forall|j: int| 0 <= j < k ==> is_digit(#[trigger] s[j]),
        k == s.len() || !is_digit(s[k]),
    ensures
        digit_run(s) == k,
    decreases k,
{
    if k > 0 {
        assert forall|j: int| 0 <= j < k - 1 implies is_digit(#[trigger] s.drop_first()[j]) by {
            assert(s.drop_first()[j] == s[j + 1]);
        }
        if k < s.len() {
            assert(s.drop_first()[k - 1] == s[k]);
        }
        lemma_digit_run(s.drop_first(), k - 1);
    }
}

/// Length of the run of digits at the start of `v`.
fn digit_run_of(v: &Vec<char>) -> (n: usize)
    ensures
        n == digit_run(v@),
        n <= v.len(),
{
    let mut k: usize = 0;
    while k < v.len() && '0' <= v[k] && v[k] <= '9'
        invariant
            k <= v.len(),
            forall|j: int| 0 <= j < k ==> is_digit(#[trigger] v@[j]),
        decreases v.len() - k,
    {
        k = k + 1;
    }
    proof {
        lemma_digit_run(v@, k as int);
    }
    k
}

/// Length of the run of digits at the end of `v`.
fn digit_run_back_of(v: &Vec<char>) -> (n: usize)
    ensures
        n == digit_run_back(v@),
        n <= v.len(),
{
    let mut k: usize = v.len();
    while k > 0 && '0' <= v[k - 1] && v[k - 1] <= '9'
        invariant
            k <= v.len(),
            forall|j: int| k <= j < v.len() ==> is_digit(#[trigger] v@[j]),
        decreases k,
    {
        k = k - 1;
    }
    proof {
        lemma_digit_run_back(v@, k as int);
    }
    v.len() - k
}

/// Reads a `// BEGIN-FILE` line.
fn read_begin_file(line: &Vec<char>) -> (r: Option<Vec<char>>)
    ensures
        r matches Some(f) ==> begin_file(line@) == Some(f@),
        r is None ==> begin_file(line@) is None,
{
    let p = chars_of("// BEGIN-FILE ");
    if has_prefix(line, &p) && line.len() > p.len() {
        Some(slice(line, p.len(), line.len()))
    } else {
        None
    }
}

/// Reads a `// END-FILE` line.
fn read_end_file(line: &Vec<char>) -> (r: Option<(Vec<char>, Option<usize>)>)
    ensures
        r matches Some((f, n)) ==> end_file(line@) == Some((f@, opt_nat(n))),
        r is None ==> end_file(line@) is None,
{
    let p = chars_of("// END-FILE ");
    if !(has_prefix(line, &p) && line.len() > p.len()) {
        return None;
    }
    let r = slice(line, p.len(), line.len());
    assert(r@ == line@.skip(p@.len() as int));
    let q = chars_of(" lines=");
    let d = digit_run_back_of(&r);
    if d > 0 && r.len() - d > q.len() {
        let k = r.len() - d - q.len();
        if matches_at_pos(&r, &q, k) {
            let file = slice(&r, 0, k);
            let n = parse_digits(&r, k + q.len(), r.len());
            proof {
                assert(lines_suffix_at(r@) == Some(k as int));
                assert(r@.subrange((k + q@.len()) as int, r@.len() as int) == r@.skip(
                    k + q@.len(),
                ));
            }
            return Some((file, n));
        }
    }
    assert(lines_suffix_at(r@) is None);
    Some((r, None))
}

/// Whether `p` occurs in `v` at `k`.
fn matches_at_pos(v: &Vec<char>, p: &Vec<char>, k: usize) -> (b: bool)
    requires
        k + p.len() <= v.len(),
    ensures
        b == (v@.subrange(k as int, k + p.len()) == p@),
{
    let mut i: usize = 0;
    while i < p.len()
        invariant
            i <= p.len(),
            k + p.len() <= v.len(),
            forall|j: int| 0 <= j < i ==> v@[k + j] == p@[j],
        decreases p.len() - i,
    {
        if v[k + i] != p[i] {
            assert(v@.subrange(k as int, k + p.len())[i as int] != p@[i as int]);
            return false;
        }
        i = i + 1;
    }
    assert(v@.subrange(k as int, k + p.len()) =~= p@);
    true
}

/// Reads the ending ` line=<digits>[ end=<digits>]` of a sync marker.
fn read_sync_tail(s: &Vec<char>) -> (r: Option<(Vec<char>, Option<Vec<char>>)>)
    ensures
        r matches Some((a, b)) ==> sync_tail(s@) == Some(
            (
                a@,
                match b {
                    Some(x) => Some(x@),
                    None => None,
                },
            ),
        ),
        r is None ==> sync_tail(s@) is None,
{
    let lp = chars_of(" line=");
    if !has_prefix(s, &lp) {
        return None;
    }
    let u = slice(s, lp.len(), s.len());
    assert(u@ == s@.skip(lp@.len() as int));
    let n = digit_run_of(&u);
    if n == 0 {
        return None;
    }
    let rest = slice(&u, n, u.len());
    assert(rest@ == u@.skip(n as int));
    let d1 = slice(&u, 0, n);
    assert(d1@ == u@.take(n as int));
    if rest.len() == 0 {
        return Some((d1, None));
    }
    let ep = chars_of(" end=");
    if has_prefix(&rest, &ep) {
        let d2 = slice(&rest, ep.len(), rest.len());
        assert(d2@ == rest@.skip(ep@.len() as int));
        let m = digit_run_of(&d2);
        if m == d2.len() && m > 0 {
            proof {
                assert forall|j: int| 0 <= j < d2@.len() implies is_digit(#[trigger] d2@[j]) by {
                    lemma_digit_run_prefix(d2@, j);
                }
            }
            return Some((d1, Some(d2)));
        } else {
            proof {
                if all_digits(d2@) {
                    lemma_digit_run(d2@, d2@.len() as int);
                }
            }
        }
    }
    None
}

/// The leading digit run is no longer than the sequence.
proof fn lemma_digit_run_le(s: Seq<char>)
    ensures
        digit_run(s) <= s.len(),
    decreases s.len(),
{
    if s.len() > 0 && is_digit(s[0]) {
        lemma_digit_run_le(s.drop_first());
    }
}

/// Every position before the end of the leading digit run holds a digit.
proof fn lemma_digit_run_prefix(s: Seq<char>, j: int)
    requires
        0 <= j < digit_run(s),
    ensures
        is_digit(s[j]),
    decreases j,
{
    assert(s.len() > 0 && is_digit(s[0]));
    lemma_digit_run_le(s.drop_first());
    if j > 0 {
        assert(digit_run(s) == 1 + digit_run(s.drop_first()));
        lemma_digit_run_prefix(s.drop_first(), j - 1);
        assert(s.drop_first()[j - 1] == s[j]);
    }
}

/// Reads a `// #KNOT-SYNC` line.
fn read_sync_marker(line: &Vec<char>) -> (r: Option<(Vec<char>, usize, Option<usize>)>)
    ensures
        r matches Some((src, k, e)) ==> sync_marker(line@) == Some((src@, k as nat, opt_nat(e))),
        r is None ==> sync_marker(line@) is None,
{
    let (a, _b) = trim_bounds(line);
    let t = slice(line, a, line.len());
    assert(t@ == trim_start(line@));
    let p = chars_of("// #KNOT-SYNC source=");
    if !has_prefix(&t, &p) {
        return None;
    }
    let rest = slice(&t, p.len(), t.len());
    assert(rest@ == t@.skip(p@.len() as int));
    let mut k = rest.len();
    while k >= 1
        invariant
            k <= rest.len(),
            t@ == trim_start(line@),
            p@ == "// #KNOT-SYNC source="@,
            starts_with(t@, p@),
            rest@ == t@.skip(p@.len() as int),
            sync_split(rest@, rest@.len() as int) == sync_split(rest@, k as int),
        decreases k,
    {
        let tail = slice(&rest, k, rest.len());
        assert(tail@ == rest@.skip(k as int));
        match read_sync_tail(&tail) {
            Some((d1, d2)) => {
                let source = slice(&rest, 0, k);
                assert(source@ == rest@.take(k as int));
                let line_no = match parse_digits(&d1, 0, d1.len()) {
                    Some(n) => n,
                    None => 0,
                };
                let end_no = match &d2 {
                    Some(d) => parse_digits(d, 0, d.len()),
                    None => None,
                };
                proof {
                    assert(sync_split(rest@, k as int) == Some(k as int));
                    assert(d1@.subrange(0, d1@.len() as int) == d1@);
                    match &d2 {
                        Some(d) => {
                            assert(d@.subrange(0, d@.len() as int) == d@);
                        },
                        None => {},
                    }
                    let tl = sync_tail(rest@.skip(k as int)).unwrap();
                    assert(tl.0 == d1@);
                    assert(starts_with(trim_start(line@), "// #KNOT-SYNC source="@));
                    assert(sync_split(rest@, rest@.len() as int) == Some(k as int));
                    assert(line_no == match parse_number(d1@) {
                        Some(n) => n,
                        None => 0,
                    });
                }
                return Some((source, line_no, end_no));
            },
            None => {},
        }
        k = k - 1;
    }
    None
}

/// Reads a `// #KNOT-INJECTION-START` line.
fn read_injection(line: &Vec<char>) -> (r: Option<usize>)
    ensures
        opt_nat(r) == injection_marker(line@),
{
    let (a, _b) = trim_bounds(line);
    let t = slice(line, a, line.len());
    assert(t@ == trim_start(line@));
    let p = chars_of("// #KNOT-INJECTION-START line=");
    if !has_prefix(&t, &p) {
        return None;
    }
    let d = slice(&t, p.len(), t.len());
    assert(d@ == t@.skip(p@.len() as int));
    let m = digit_run_of(&d);
    if m == d.len() && m > 0 {
        proof {
            assert forall|j: int| 0 <= j < d@.len() implies is_digit(#[trigger] d@[j]) by {
                lemma_digit_run_prefix(d@, j);
            }
            assert(d@.subrange(0, d@.len() as int) == d@);
        }
        match parse_digits(&d, 0, d.len()) {
            Some(n) => Some(n),
            None => Some(0),
        }
    } else {
        proof {
            if all_digits(d@) {
                lemma_digit_run(d@, d@.len() as int);
            }
        }
        None
    }
}

/// Whether `line` closes a replaced range.
fn read_closes_range(line: &Vec<char>) -> (b: bool)
    ensures
        b == closes_range(line@),
{
    let (a, z) = trim_bounds(line);
    let t = slice(line, a, z);
    spells(&t, "// END-KNOT-SYNC") || spells(&t, "// #KNOT-INJECTION-END")
}

// ---------------------------------------------------------------------------
// The parser
// ---------------------------------------------------------------------------

/// An open file block and the range being read inside it.
struct Frame {
    block: FileBlock,
    pending: Option<ChunkMarker>,
}

/// An optional marker read as its value.
pub open spec fn opt_marker(o: Option<ChunkMarker>) -> Option<MarkerV> {
    match o {
        Some(m) => Some(m@),
        None => None,
    }
}

impl View for Frame {
    type V = FrameV;

    closed spec fn view(&self) -> FrameV {
        FrameV { block: self.block@, pending: opt_marker(self.pending) }
    }
}

/// Values of a stack of frames.
spec fn frames_view(v: Seq<Frame>) -> Seq<FrameV> {
    v.map_values(|f: Frame| f@)
}

/// Closes the pending range of `f` at line `n`.
fn finish_frame(f: Frame, n: usize) -> (g: Frame)
    ensures
        g@ == finish_range(f@, n as nat),
{
    let Frame { mut block, pending } = f;
    match pending {
        Some(mut r) => {
            r.end_line = n;
            let ghost old_chunks = block.chunks@;
            block.chunks.push(r);
            proof {
                assert(block.chunks@.map_values(|m: ChunkMarker| m@) =~= old_chunks.map_values(
                    |m: ChunkMarker| m@,
                ).push(r@));
            }
            Frame { block, pending: None }
        },
        None => Frame { block, pending: None },
    }
}

/// Parses the navigation markers of a generated document. Only complete file
/// blocks (opened and closed by matching markers) are returned, in the order
/// in which they close.
pub fn parse_knot_markers(content: &str) -> (r: Vec<FileBlock>)
    ensures
        blocks_view(r@) == markers_of(content@),
{
    let cv = chars_of(content);
    let ls = split_lines(&cv);
    let ghost lsv = lines(content@);
    let mut blocks: Vec<FileBlock> = Vec::new();
    let mut stack: Vec<Frame> = Vec::new();
    let mut i: usize = 0;
    while i < ls.len()
        invariant
            i <= ls.len(),
            ls@.len() == lsv.len(),
            lsv == lines(content@),
            forall|k: int| 0 <= k < ls@.len() ==> #[trigger] ls@[k]@ == lsv[k],
            blocks_view(blocks@) == run(lsv, i as nat).blocks,
            frames_view(stack@) == run(lsv, i as nat).stack,
        decreases ls.len() - i,
    {
        let ghost st = run(lsv, i as nat);
        let line = &ls[i];
        assert(line@ == lsv[i as int]);
        match read_begin_file(line) {
            Some(f) => {
                let block = FileBlock {
                    file: string_of(&f),
                    start_line: i,
                    end_line: 0,
                    source_lines: None,
                    chunks: Vec::new(),
                };
                assert(block.chunks@.map_values(|m: ChunkMarker| m@) =~= Seq::<MarkerV>::empty());
                stack.push(Frame { block, pending: None });
                assert(frames_view(stack@) =~= st.stack.push(
                    FrameV {
                        block: BlockV {
                            file: f@,
                            start_line: i as nat,
                            end_line: 0,
                            source_lines: None,
                            chunks: Seq::empty(),
                        },
                        pending: None,
                    },
                ));
            },
            None => match read_end_file(line) {
                Some((f, count)) => {
                    if stack.len() > 0 {
                        let last = stack.len() - 1;
                        let name = chars_of(stack[last].block.file.as_str());
                        if same_chars(&name, &f) {
                            let ghost before = stack@;
                            let mut fr = stack.pop().unwrap();
                            assert(fr@ == st.stack.last());
                            fr.block.end_line = i;
                            fr.block.source_lines = count;
                            blocks.push(fr.block);
                            assert(frames_view(stack@) =~= st.stack.drop_last());
                            assert(blocks_view(blocks@) =~= st.blocks.push(
                                BlockV {
                                    end_line: i as nat,
                                    source_lines: opt_nat(count),
                                    ..st.stack.last().block
                                },
                            ));
                        }
                    }
                },
                None => {
                    if stack.len() > 0 {
                        let mut fr = stack.pop().unwrap();
                        assert(fr@ == st.stack.last());
                        let g = match read_sync_marker(line) {
                            Some((src, k, e)) => {
                                let m = ChunkMarker {
                                    source: string_of(&src),
                                    knot_line: k,
                                    source_end_line: e,
                                    start_line: i,
                                    end_line: i,
                                    content_line: i + 1,
                                };
                                Frame { block: fr.block, pending: Some(m) }
                            },
                            None => match read_injection(line) {
                                Some(k) => {
                                    let m = ChunkMarker {
                                        source: string_of(&chars_of("INJECTION")),
                                        knot_line: k,
                                        source_end_line: Some(k),
                                        start_line: i,
                                        end_line: i,
                                        content_line: i,
                                    };
                                    Frame { block: fr.block, pending: Some(m) }
                                },
                                None => {
                                    if read_closes_range(line) {
                                        finish_frame(fr, i)
                                    } else {
                                        fr
                                    }
                                },
                            },
                        };
                        stack.push(g);
                        assert(frames_view(stack@) =~= st.stack.update(st.stack.len() - 1, g@));
                    }
                },
            },
        }
        i = i + 1;
    }
    blocks
}

// ---------------------------------------------------------------------------
// Navigation
// ---------------------------------------------------------------------------

/// Largest line number handled by navigation.
pub const LINE_LIMIT: usize = 0x3fff_ffff;

/// Every line number of a block is within [`LINE_LIMIT`].
pub open spec fn block_bounded(b: BlockV) -> bool {
    &&& b.start_line <= LINE_LIMIT
    &&& b.end_line <= LINE_LIMIT
    &&& (b.source_lines matches Some(n) ==> n <= LINE_LIMIT)
    &&& forall|k: int|
        0 <= k < b.chunks.len() ==> {
            let m = #[trigger] b.chunks[k];
            &&& m.knot_line <= LINE_LIMIT
            &&& (m.source_end_line matches Some(e) ==> e <= LINE_LIMIT)
            &&& m.start_line <= LINE_LIMIT
            &&& m.end_line <= LINE_LIMIT
            &&& m.content_line <= LINE_LIMIT
        }
}

/// Every block is bounded.
pub open spec fn blocks_bounded(bs: Seq<BlockV>) -> bool {
    forall|k: int| 0 <= k < bs.len() ==> block_bounded(#[trigger] bs[k])
}

/// Whether every line number of the marker is within [`LINE_LIMIT`].
fn marker_within_limit(m: &ChunkMarker) -> (r: bool)
    ensures
        r == ({
            let v = m@;
            &&& v.knot_line <= LINE_LIMIT
            &&& (v.source_end_line matches Some(e) ==> e <= LINE_LIMIT)
            &&& v.start_line <= LINE_LIMIT
            &&& v.end_line <= LINE_LIMIT
            &&& v.content_line <= LINE_LIMIT
        }),
{
    m.knot_line <= LINE_LIMIT && match m.source_end_line {
        Some(e) => e <= LINE_LIMIT,
        None => true,
    } && m.start_line <= LINE_LIMIT && m.end_line <= LINE_LIMIT && m.content_line <= LINE_LIMIT
}

/// Whether a navigation over `blocks` from line `line`, with `disk_lines`
/// lines in the source on disk, stays within [`LINE_LIMIT`].
pub open spec fn navigation_within(line: usize, blocks: Seq<BlockV>, disk_lines: Option<usize>) -> bool {
    &&& blocks_bounded(blocks)
    &&& line <= LINE_LIMIT
    &&& disk_lines matches Some(n) ==> n <= LINE_LIMIT
}

/// Maps a line of the generated document to the source file and line it
/// comes from (see `typ_to_knot`); nothing is mapped when a line number
/// involved is beyond [`LINE_LIMIT`].
pub fn map_typ_line_to_knot(
    typ_line: usize,
    blocks: &Vec<FileBlock>,
    project_root: &str,
    disk_lines: Option<usize>,
) -> (r: Option<(String, usize)>)
    ensures
        !navigation_within(typ_line, blocks_view(blocks@), disk_lines) ==> r is None,
        navigation_within(typ_line, blocks_view(blocks@), disk_lines) ==> (r matches Some((p, l))
            ==> typ_to_knot(typ_line as nat, blocks_view(blocks@), project_root@, opt_nat(disk_lines))
            == Some((p@, l as nat))),
        navigation_within(typ_line, blocks_view(blocks@), disk_lines) ==> (r is None ==> typ_to_knot(
            typ_line as nat,
            blocks_view(blocks@),
            project_root@,
            opt_nat(disk_lines),
        ) is None),
{
    let disk_ok = match disk_lines {
        Some(n) => n <= LINE_LIMIT,
        None => true,
    };
    if typ_line > LINE_LIMIT || !disk_ok || !within_line_limit(blocks) {
        return None;
    }
    typ_line_to_knot_within(typ_line, blocks, project_root, disk_lines)
}

/// Maps a line of a source file to the line of the generated document that
/// shows it (see `knot_to_typ`); nothing is mapped when a line number
/// involved is beyond [`LINE_LIMIT`].
pub fn map_knot_line_to_typ(
    knot_file: &str,
    knot_line: usize,
    blocks: &Vec<FileBlock>,
    disk_lines: Option<usize>,
) -> (r: Option<usize>)
    ensures
        !navigation_within(knot_line, blocks_view(blocks@), disk_lines) ==> r is None,
        navigation_within(knot_line, blocks_view(blocks@), disk_lines) ==> opt_nat(r) == knot_to_typ(
            knot_file@,
            knot_line as nat,
            blocks_view(blocks@),
            opt_nat(disk_lines),
        ),
{
    let disk_ok = match disk_lines {
        Some(n) => n <= LINE_LIMIT,
        None => true,
    };
    if knot_line > LINE_LIMIT || !disk_ok || !within_line_limit(blocks) {
        return None;
    }
    knot_line_to_typ_within(knot_file, knot_line, blocks, disk_lines)
}

/// Whether every line number of the blocks is within [`LINE_LIMIT`], as
/// navigation requires.
pub fn within_line_limit(blocks: &Vec<FileBlock>) -> (r: bool)
    ensures
        r == blocks_bounded(blocks_view(blocks@)),
{
    let mut i: usize = 0;
    while i < blocks.len()
        invariant
            i <= blocks@.len(),
            forall|k: int| 0 <= k < i ==> block_bounded(#[trigger] blocks_view(blocks@)[k]),
        decreases blocks.len() - i,
    {
        let b = &blocks[i];
        assert(blocks_view(blocks@)[i as int] == b@);
        let head = b.start_line <= LINE_LIMIT && b.end_line <= LINE_LIMIT && match b.source_lines {
            Some(n) => n <= LINE_LIMIT,
            None => true,
        };
        if !head {
            return false;
        }
        let mut k: usize = 0;
        while k < b.chunks.len()
            invariant
                i < blocks@.len(),
                *b == blocks@[i as int],
                blocks_view(blocks@)[i as int] == b@,
                head == (b@.start_line <= LINE_LIMIT && b@.end_line <= LINE_LIMIT && (
                b@.source_lines matches Some(n) ==> n <= LINE_LIMIT)),
                head,
                forall|k: int| 0 <= k < i ==> block_bounded(#[trigger] blocks_view(blocks@)[k]),
                k <= b.chunks@.len(),
                b@.chunks == b.chunks@.map_values(|m: ChunkMarker| m@),
                forall|j: int|
                    0 <= j < k ==> {
                        let m = #[trigger] b@.chunks[j];
                        &&& m.knot_line <= LINE_LIMIT
                        &&& (m.source_end_line matches Some(e) ==> e <= LINE_LIMIT)
                        &&& m.start_line <= LINE_LIMIT
                        &&& m.end_line <= LINE_LIMIT
                        &&& m.content_line <= LINE_LIMIT
                    },
            decreases b.chunks.len() - k,
        {
            assert(b@.chunks[k as int] == b.chunks@[k as int]@);
            if !marker_within_limit(&b.chunks[k]) {
                proof {
                    let bv = blocks_view(blocks@)[i as int];
                    assert(bv.chunks[k as int] == b.chunks@[k as int]@);
                    assert(!block_bounded(bv));
                }
                return false;
            }
            k = k + 1;
        }
        i = i + 1;
    }
    true
}

/// Number of lines of the block's source: the recorded one, or else the one
/// read from disk.
pub open spec fn source_length(b: BlockV, disk_lines: Option<nat>) -> Option<nat> {
    match b.source_lines {
        Some(n) => Some(n),
        None => disk_lines,
    }
}

/// Last source line of range `index`, 1-based: the recorded one, or (in older
/// output) inferred from the next range or from the source length.
pub open spec fn range_source_end(b: BlockV, index: int, disk_lines: Option<nat>) -> Option<nat> {
    let r = b.chunks[index];
    match r.source_end_line {
        Some(e) => Some(e),
        None => if index + 1 < b.chunks.len() {
            let next = b.chunks[index + 1];
            if next.start_line < r.end_line + 1 {
                None
            } else {
                let verbatim = (next.start_line - (r.end_line + 1)) as nat;
                if next.knot_line < verbatim + 1 {
                    None
                } else {
                    Some((next.knot_line - (verbatim + 1)) as nat)
                }
            }
        } else {
            match source_length(b, disk_lines) {
                None => None,
                Some(len) => if b.end_line < r.end_line + 1 {
                    None
                } else {
                    let gap = (b.end_line - (r.end_line + 1)) as nat;
                    if len < gap {
                        None
                    } else {
                        Some((len - gap) as nat)
                    }
                },
            }
        },
    }
}

/// Among the first `n` blocks, the first innermost one strictly enclosing
/// generated line `typ_line`.
pub open spec fn enclosing_among(typ_line: nat, bs: Seq<BlockV>, n: int) -> Option<int>
    decreases n,
{
    if n <= 0 {
        None
    } else {
        let prev = enclosing_among(typ_line, bs, n - 1);
        let b = bs[n - 1];
        if !(b.start_line < typ_line && typ_line < b.end_line) {
            prev
        } else {
            match prev {
                None => Some(n - 1),
                Some(p) => if b.end_line - b.start_line < bs[p].end_line - bs[p].start_line {
                    Some(n - 1)
                } else {
                    prev
                },
            }
        }
    }
}

/// `s` with back slashes turned into slashes.
pub open spec fn slashes(s: Seq<char>) -> Seq<char> {
    s.map_values(|c: char| if c == '\\' { '/' } else { c })
}

/// `base` joined with `rel` as `Path::join` does on Unix: an absolute `rel`
/// replaces `base`; otherwise one separator is inserted when needed.
pub open spec fn path_join(base: Seq<char>, rel: Seq<char>) -> Seq<char> {
    if rel.len() > 0 && rel[0] == '/' {
        rel
    } else if base.len() == 0 {
        rel
    } else if base.last() == '/' {
        base + rel
    } else {
        base + "/"@ + rel
    }
}

/// What remains of a walk through the ranges of `b` once the generated line
/// has not fallen into any range before `index`.
pub open spec fn typ_walk(
    b: BlockV,
    typ_line: nat,
    index: int,
    source_line: nat,
    disk_lines: Option<nat>,
) -> Option<nat>
    decreases b.chunks.len() - index,
{
    if index < 0 || index >= b.chunks.len() || typ_line < b.chunks[index].start_line {
        match source_length(b, disk_lines) {
            Some(len) => if source_line >= len {
                None
            } else {
                Some(source_line)
            },
            None => Some(source_line),
        }
    } else {
        let r = b.chunks[index];
        if typ_line <= r.end_line {
            if r.source != "INJECTION"@ && r.knot_line > 0 {
                Some((r.knot_line - 1) as nat)
            } else {
                None
            }
        } else {
            match range_source_end(b, index, disk_lines) {
                None => None,
                Some(e) => typ_walk(
                    b,
                    typ_line,
                    index + 1,
                    (e + typ_line - r.end_line - 1) as nat,
                    disk_lines,
                ),
            }
        }
    }
}

/// The source file and line (0-based) shown at generated line `typ_line`
/// (0-based). Library code, included content and lines past the end of the
/// source have none. `disk_lines` is the length of the source on disk, used
/// only by legacy output that did not record it.
pub open spec fn typ_to_knot(
    typ_line: nat,
    bs: Seq<BlockV>,
    root: Seq<char>,
    disk_lines: Option<nat>,
) -> Option<(Seq<char>, nat)> {
    match enclosing_among(typ_line, bs, bs.len() as int) {
        None => None,
        Some(i) => {
            let b = bs[i];
            match typ_walk(b, typ_line, 0, (typ_line - b.start_line - 1) as nat, disk_lines) {
                None => None,
                Some(line) => Some((path_join(root, slashes(b.file)), line)),
            }
        },
    }
}

/// The part kept of one path component: nothing for an empty or `.` one.
pub open spec fn keep_part(p: Seq<char>) -> Seq<Seq<char>> {
    if p.len() > 0 && p != "."@ {
        seq![p]
    } else {
        Seq::empty()
    }
}

/// Components of `s` split at `/`, without empty and `.` components.
pub open spec fn kept_parts(s: Seq<char>) -> Seq<Seq<char>>
    decreases s.len(),
{
    match find_char_from(s, '/', 0) {
        None => keep_part(s),
        Some(i) => if 0 <= i < s.len() {
            keep_part(s.take(i)) + kept_parts(s.skip(i + 1))
        } else {
            Seq::empty()
        },
    }
}

/// A source name compared up to separators: back slashes read as slashes,
/// empty and `.` components dropped.
pub open spec fn normalized_name(name: Seq<char>) -> Seq<char> {
    join(kept_parts(slashes(name)), "/"@)
}

/// The first block whose file is `name`, up to normalization.
pub open spec fn block_named(bs: Seq<BlockV>, name: Seq<char>, from: int) -> Option<int>
    decreases bs.len() - from,
{
    if from < 0 || from >= bs.len() {
        None
    } else if normalized_name(bs[from].file) == normalized_name(name) {
        Some(from)
    } else {
        block_named(bs, name, from + 1)
    }
}

/// The end of a walk through the ranges of a block, source to generated.
pub open spec fn knot_walk_end(b: BlockV, typ_line: nat) -> Option<nat> {
    if typ_line < b.end_line {
        Some(typ_line)
    } else {
        None
    }
}

/// Walk through the ranges of `b` from `index`, mapping source line
/// `knot_line` to generated line `typ_line` when it falls between ranges.
pub open spec fn knot_walk(
    b: BlockV,
    knot_line: nat,
    index: int,
    typ_line: nat,
    disk_lines: Option<nat>,
) -> Option<nat>
    decreases b.chunks.len() - index,
{
    if index < 0 || index >= b.chunks.len() {
        knot_walk_end(b, typ_line)
    } else {
        let r = b.chunks[index];
        if r.knot_line == 0 {
            None
        } else if knot_line < r.knot_line - 1 {
            knot_walk_end(b, typ_line)
        } else {
            match range_source_end(b, index, disk_lines) {
                None => None,
                Some(e) => if knot_line < e {
                    if r.source != "INJECTION"@ {
                        Some(r.content_line)
                    } else {
                        None
                    }
                } else {
                    knot_walk(
                        b,
                        knot_line,
                        index + 1,
                        (r.end_line + 1 + (knot_line - e)) as nat,
                        disk_lines,
                    )
                },
            }
        }
    }
}

/// The generated line (0-based) showing source line `knot_line` (0-based)
/// of `knot_file`. Every line of a chunk maps to its rendered block; lines of
/// included content and lines past the end of the source have none.
pub open spec fn knot_to_typ(
    knot_file: Seq<char>,
    knot_line: nat,
    bs: Seq<BlockV>,
    disk_lines: Option<nat>,
) -> Option<nat> {
    match block_named(bs, knot_file, 0) {
        None => None,
        Some(i) => {
            let b = bs[i];
            if source_length(b, disk_lines) matches Some(len) && knot_line >= len {
                None
            } else {
                knot_walk(b, knot_line, 0, b.start_line + 1 + knot_line, disk_lines)
            }
        },
    }
}

/// [`range_source_end`] of range `index` of `b`.
fn source_end_of(b: &FileBlock, index: usize, disk_lines: Option<usize>) -> (r: Option<usize>)
    requires
        block_bounded(b@),
        index < b.chunks@.len(),
        disk_lines matches Some(n) ==> n <= LINE_LIMIT,
    ensures
        opt_nat(r) == range_source_end(b@, index as int, opt_nat(disk_lines)),
        r matches Some(e) ==> e <= LINE_LIMIT,
{
    let ghost bv = b@;
    assert(bv.chunks[index as int] == b.chunks@[index as int]@);
    assert(block_bounded(bv) ==> bv.chunks[index as int].end_line <= LINE_LIMIT);
    let r = &b.chunks[index];
    match r.source_end_line {
        Some(e) => Some(e),
        None => {
            if index < b.chunks.len() - 1 {
                let next = &b.chunks[index + 1];
                assert(bv.chunks[index + 1] == next@);
                if next.start_line < r.end_line + 1 {
                    None
                } else {
                    let verbatim = next.start_line - (r.end_line + 1);
                    if next.knot_line < verbatim + 1 {
                        None
                    } else {
                        Some(next.knot_line - (verbatim + 1))
                    }
                }
            } else {
                let len = match b.source_lines {
                    Some(n) => Some(n),
                    None => disk_lines,
                };
                match len {
                    None => None,
                    Some(len) => {
                        if b.end_line < r.end_line + 1 {
                            None
                        } else {
                            let gap = b.end_line - (r.end_line + 1);
                            if len < gap {
                                None
                            } else {
                                Some(len - gap)
                            }
                        }
                    },
                }
            }
        },
    }
}

/// The first innermost block strictly enclosing generated line `typ_line`.
pub fn enclosing_block(typ_line: usize, blocks: &Vec<FileBlock>) -> (r: Option<usize>)
    ensures
        r matches Some(i) ==> enclosing_among(typ_line as nat, blocks_view(blocks@), blocks@.len() as int)
            == Some(i as int) && i < blocks@.len() && blocks@[i as int].start_line < typ_line
            < blocks@[i as int].end_line,
        r is None ==> enclosing_among(typ_line as nat, blocks_view(blocks@), blocks@.len() as int) is None,
{
    let ghost bs = blocks_view(blocks@);
    let mut best: Option<usize> = None;
    let mut i: usize = 0;
    while i < blocks.len()
        invariant
            i <= blocks.len(),
            bs == blocks_view(blocks@),
            enclosing_among(typ_line as nat, bs, i as int) == match best {
                Some(b) => Some(b as int),
                None => None::<int>,
            },
            best matches Some(b) ==> b < i && blocks@[b as int].start_line < typ_line
                < blocks@[b as int].end_line,
        decreases blocks.len() - i,
    {
        let b = &blocks[i];
        assert(bs[i as int] == b@);
        if b.start_line < typ_line && typ_line < b.end_line {
            match best {
                None => {
                    best = Some(i);
                },
                Some(p) => {
                    assert(bs[p as int] == blocks@[p as int]@);
                    if b.end_line - b.start_line < blocks[p].end_line - blocks[p].start_line {
                        best = Some(i);
                    }
                },
            }
        }
        i = i + 1;
    }
    best
}

/// `s` with back slashes turned into slashes.
fn to_slashes(s: &str) -> (r: Vec<char>)
    ensures
        r@ == slashes(s@),
{
    let v = chars_of(s);
    let mut r: Vec<char> = Vec::new();
    let mut i: usize = 0;
    while i < v.len()
        invariant
            i <= v.len(),
            v@ == s@,
            r@ == slashes(v@.take(i as int)),
        decreases v.len() - i,
    {
        let c = v[i];
        r.push(if c == '\\' { '/' } else { c });
        i = i + 1;
        assert(slashes(v@.take(i as int)) =~= slashes(v@.take((i - 1) as int)).push(
            if v@[i - 1] == '\\' { '/' } else { v@[i - 1] },
        ));
    }
    assert(v@.take(v.len() as int) == v@);
    r
}

/// `base` joined with `rel` as `Path::join` does on Unix.
pub fn join_path(base: &str, rel: &Vec<char>) -> (r: String)
    ensures
        r@ == path_join(base@, rel@),
{
    let b = chars_of(base);
    if rel.len() > 0 && rel[0] == '/' {
        return string_of(rel);
    }
    if b.len() == 0 {
        return string_of(rel);
    }
    let mut out = b;
    if out[out.len() - 1] != '/' {
        push_str(&mut out, "/");
    }
    extend(&mut out, rel);
    string_of(&out)
}

/// The source file and line (both 0-based lines) that generated line
/// `typ_line` shows: see [`typ_to_knot`]. `disk_lines` is the number of lines
/// of that block's source on disk (only read by legacy output).
fn typ_line_to_knot_within(
    typ_line: usize,
    blocks: &Vec<FileBlock>,
    project_root: &str,
    disk_lines: Option<usize>,
) -> (r: Option<(String, usize)>)
    requires
        blocks_bounded(blocks_view(blocks@)),
        typ_line <= LINE_LIMIT,
        disk_lines matches Some(n) ==> n <= LINE_LIMIT,
    ensures
        r matches Some((p, l)) ==> typ_to_knot(
            typ_line as nat,
            blocks_view(blocks@),
            project_root@,
            opt_nat(disk_lines),
        ) == Some((p@, l as nat)),
        r is None ==> typ_to_knot(
            typ_line as nat,
            blocks_view(blocks@),
            project_root@,
            opt_nat(disk_lines),
        ) is None,
{
    let ghost bs = blocks_view(blocks@);
    let ghost disk = opt_nat(disk_lines);
    let bi = match enclosing_block(typ_line, blocks) {
        None => return None,
        Some(i) => i,
    };
    let b = &blocks[bi];
    let ghost bv = b@;
    assert(bs[bi as int] == bv);
    assert(block_bounded(bv));
    let mut source_line: usize = typ_line - b.start_line - 1;
    let mut index: usize = 0;
    let mut found: Option<usize> = None;
    let mut done = false;
    while index < b.chunks.len()
        invariant_except_break
            !done,
        invariant
            index <= b.chunks@.len(),
            bv == b@,
            block_bounded(bv),
            b.start_line < typ_line < b.end_line,
            typ_line <= LINE_LIMIT,
            disk_lines matches Some(n) ==> n <= LINE_LIMIT,
            disk == opt_nat(disk_lines),
            source_line <= 2 * LINE_LIMIT,
            typ_walk(bv, typ_line as nat, 0, (typ_line - b.start_line - 1) as nat, disk)
                == typ_walk(bv, typ_line as nat, index as int, source_line as nat, disk),
        ensures
            done ==> typ_walk(bv, typ_line as nat, 0, (typ_line - b.start_line - 1) as nat, disk)
                == opt_nat(found),
            !done ==> typ_walk(bv, typ_line as nat, 0, (typ_line - b.start_line - 1) as nat, disk)
                == typ_walk(bv, typ_line as nat, index as int, source_line as nat, disk),
            !done ==> (index >= b.chunks@.len() || typ_line < b.chunks@[index as int].start_line),
        decreases b.chunks.len() - index,
    {
        let r = &b.chunks[index];
        assert(bv.chunks[index as int] == r@);
        if typ_line < r.start_line {
            break;
        }
        if typ_line <= r.end_line {
            let inj = chars_of("INJECTION");
            let src = chars_of(r.source.as_str());
            if !same_chars(&src, &inj) && r.knot_line > 0 {
                found = Some(r.knot_line - 1);
            } else {
                found = None;
            }
            done = true;
            break;
        }
        match source_end_of(b, index, disk_lines) {
            None => {
                found = None;
                done = true;
                break;
            },
            Some(e) => {
                source_line = e + (typ_line - r.end_line - 1);
            },
        }
        index = index + 1;
    }
    if !done {
        let len = match b.source_lines {
            Some(n) => Some(n),
            None => disk_lines,
        };
        match len {
            Some(n) => {
                if source_line >= n {
                    return None;
                }
            },
            None => {},
        }
        found = Some(source_line);
    }
    match found {
        None => None,
        Some(line) => {
            let rel = to_slashes(b.file.as_str());
            Some((join_path(project_root, &rel), line))
        },
    }
}

/// Components of `v[from..]` kept by [`kept_parts`], appended to `acc`.
fn collect_parts(v: &Vec<char>) -> (r: Vec<Vec<char>>)
    ensures
        r@.map_values(|p: Vec<char>| p@) == kept_parts(v@),
{
    let mut r: Vec<Vec<char>> = Vec::new();
    let mut pos: usize = 0;
    let mut finished = false;
    assert(v@.skip(0) == v@);
    while !finished
        invariant
            pos <= v.len(),
            finished ==> r@.map_values(|p: Vec<char>| p@) == kept_parts(v@),
            !finished ==> r@.map_values(|p: Vec<char>| p@) + kept_parts(v@.skip(pos as int))
                == kept_parts(v@),
        decreases v.len() - pos, if finished { 0int } else { 1int },
    {
        let ghost rest = v@.skip(pos as int);
        let ghost before = r@.map_values(|p: Vec<char>| p@);
        proof {
            crate::text::lemma_find_char_shift(v@, '/', pos as int, 0);
        }
        let (end, next) = match find_char_at(v, '/', pos) {
            Some(i) => (i, Some(i + 1)),
            None => (v.len(), None),
        };
        let part = slice(v, pos, end);
        let dot = chars_of(".");
        let kept = part.len() > 0 && !same_chars(&part, &dot);
        if kept {
            r.push(part);
        }
        proof {
            let now = r@.map_values(|p: Vec<char>| p@);
            assert(now =~= before + keep_part(part@));
        }
        match next {
            Some(n) => {
                proof {
                    assert(part@ == rest.take(end - pos));
                    assert(rest.skip(end - pos + 1) == v@.skip(n as int));
                    assert(kept_parts(rest) == keep_part(rest.take(end - pos)) + kept_parts(
                        rest.skip(end - pos + 1),
                    ));
                    let now = r@.map_values(|p: Vec<char>| p@);
                    assert(now + kept_parts(v@.skip(n as int)) =~= before + (keep_part(part@)
                        + kept_parts(v@.skip(n as int))));
                }
                pos = n;
            },
            None => {
                proof {
                    assert(part@ == rest);
                    assert(kept_parts(rest) == keep_part(rest));
                }
                finished = true;
            },
        }
    }
    r
}

/// A source name up to separators: back slashes read as slashes, empty and
/// `.` components dropped (`./a//b` and `a\\b` both give `a/b`).
pub fn normalized_source_name(name: &str) -> (r: String)
    ensures
        r@ == normalized_name(name@),
{
    let v = to_slashes(name);
    let parts = collect_parts(&v);
    let joined = join_chars(&parts, "/");
    string_of(&joined)
}

/// The generated line (0-based) that shows source line `knot_line`
/// (0-based) of `knot_file`: see [`knot_to_typ`]. `disk_lines` is the number
/// of lines of `knot_file` on disk (only read by legacy output).
fn knot_line_to_typ_within(
    knot_file: &str,
    knot_line: usize,
    blocks: &Vec<FileBlock>,
    disk_lines: Option<usize>,
) -> (r: Option<usize>)
    requires
        blocks_bounded(blocks_view(blocks@)),
        knot_line <= LINE_LIMIT,
        disk_lines matches Some(n) ==> n <= LINE_LIMIT,
    ensures
        opt_nat(r) == knot_to_typ(knot_file@, knot_line as nat, blocks_view(blocks@), opt_nat(disk_lines)),
{
    let ghost bs = blocks_view(blocks@);
    let ghost disk = opt_nat(disk_lines);
    let wanted = normalized_source_name(knot_file);
    let wanted_v = chars_of(wanted.as_str());
    let mut bi: usize = 0;
    let mut hit = false;
    while bi < blocks.len()
        invariant_except_break
            !hit,
        invariant
            bi <= blocks.len(),
            bs == blocks_view(blocks@),
            wanted_v@ == normalized_name(knot_file@),
            block_named(bs, knot_file@, 0) == block_named(bs, knot_file@, bi as int),
        ensures
            hit ==> bi < blocks.len() && normalized_name(bs[bi as int].file) == normalized_name(
                knot_file@,
            ),
            !hit ==> bi >= blocks.len(),
        decreases blocks.len() - bi,
    {
        let name = normalized_source_name(blocks[bi].file.as_str());
        let name_v = chars_of(name.as_str());
        assert(bs[bi as int] == blocks@[bi as int]@);
        if same_chars(&name_v, &wanted_v) {
            hit = true;
            break;
        }
        bi = bi + 1;
    }
    if !hit {
        return None;
    }
    assert(block_named(bs, knot_file@, bi as int) == Some(bi as int));
    let b = &blocks[bi];
    let ghost bv = b@;
    assert(bs[bi as int] == bv);
    assert(block_bounded(bv));
    let len = match b.source_lines {
        Some(n) => Some(n),
        None => disk_lines,
    };
    match len {
        Some(n) => {
            if knot_line >= n {
                return None;
            }
        },
        None => {},
    }
    let mut typ_line: usize = b.start_line + 1 + knot_line;
    let mut index: usize = 0;
    assert(knot_to_typ(knot_file@, knot_line as nat, bs, disk) == knot_walk(
        bv,
        knot_line as nat,
        0,
        (b.start_line + 1 + knot_line) as nat,
        disk,
    ));
    while index < b.chunks.len()
        invariant
            index <= b.chunks@.len(),
            bv == b@,
            block_bounded(bv),
            knot_line <= LINE_LIMIT,
            disk_lines matches Some(n) ==> n <= LINE_LIMIT,
            disk == opt_nat(disk_lines),
            typ_line <= 3 * LINE_LIMIT,
            bs == blocks_view(blocks@),
            knot_to_typ(knot_file@, knot_line as nat, bs, disk) == knot_walk(
                bv,
                knot_line as nat,
                0,
                (b.start_line + 1 + knot_line) as nat,
                disk,
            ),
            knot_walk(bv, knot_line as nat, 0, (b.start_line + 1 + knot_line) as nat, disk) == knot_walk(
                bv,
                knot_line as nat,
                index as int,
                typ_line as nat,
                disk,
            ),
        decreases b.chunks.len() - index,
    {
        let rg = &b.chunks[index];
        assert(bv.chunks.len() == b.chunks@.len());
        assert(bv.chunks[index as int] == rg@);
        if rg.knot_line == 0 {
            return None;
        }
        if knot_line < rg.knot_line - 1 {
            return if typ_line < b.end_line {
                Some(typ_line)
            } else {
                None
            };
        }
        match source_end_of(b, index, disk_lines) {
            None => return None,
            Some(e) => {
                if knot_line < e {
                    let inj = chars_of("INJECTION");
                    let src = chars_of(rg.source.as_str());
                    return if !same_chars(&src, &inj) {
                        Some(rg.content_line)
                    } else {
                        None
                    };
                }
                typ_line = rg.end_line + 1 + (knot_line - e);
            },
        }
        index = index + 1;
    }
    if typ_line < b.end_line {
        Some(typ_line)
    } else {
        None
    }
}

// ---------------------------------------------------------------------------
// Wrapping a source
// ---------------------------------------------------------------------------

/// The separator before the closing marker: none after empty content or
/// content ending with a line break, otherwise a line break.
pub open spec fn wrap_separator(content: Seq<char>) -> Seq<char> {
    if content.len() == 0 || content.last() == '\n' {
        Seq::empty()
    } else {
        "\n"@
    }
}

/// `content` between the file markers of `file`, the closing one recording
/// the source length `source_lines`.
pub open spec fn wrapped_source(content: Seq<char>, file: Seq<char>, source_lines: nat) -> Seq<
    char,
> {
    "// BEGIN-FILE "@ + file + "\n"@ + content + wrap_separator(content) + "// END-FILE "@ + file
        + " lines="@ + decimal(source_lines) + "\n"@
}

/// Wraps the output of one source between its file markers, keeping its
/// leading and trailing lines.
pub fn wrap_source(content: &str, file: &str, source_lines: usize) -> (r: String)
    ensures
        r@ == wrapped_source(content@, file@, source_lines as nat),
{
    let cv = chars_of(content);
    let mut out: Vec<char> = Vec::new();
    push_str(&mut out, "// BEGIN-FILE ");
    push_str(&mut out, file);
    push_str(&mut out, "\n");
    extend(&mut out, &cv);
    if !(cv.len() == 0 || cv[cv.len() - 1] == '\n') {
        push_str(&mut out, "\n");
    } else {
        assert(out@ == out@ + Seq::<char>::empty());
    }
    push_str(&mut out, "// END-FILE ");
    push_str(&mut out, file);
    push_str(&mut out, " lines=");
    push_decimal(&mut out, source_lines as u64);
    push_str(&mut out, "\n");
    string_of(&out)
}

} // verus!
