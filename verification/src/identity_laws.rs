//! Which execution options a chunk's identity determines.
use crate::ast::{fig_format_debug, options_view, resolve_v, ChunkOptions, FigFormat};
use crate::hashing::{bool_text, chunk_identity, execution_options_text, frame};
use crate::laws::{fields_fit, law_chunk_identity_determines_its_inputs};
use crate::text::{decimal, digit};
use vstd::prelude::*;

verus! {

/// Whether `s` holds no `|`.
pub open spec fn without_bar(s: Seq<char>) -> bool {
    forall|i: int| 0 <= i < s.len() ==> s[i] != '|'
}

/// Two chunks with the same identity run with the same execution options:
/// whether they are evaluated, their figure width and height, resolution
/// and figure format (figure sizes holding no `|`, as sizes do). Changing
/// any of them changes the identity, so the chunk runs again.
pub proof fn law_chunk_identity_determines_execution_options(
    language: (Seq<char>, Seq<char>),
    code: (Seq<char>, Seq<char>),
    options: (ChunkOptions, ChunkOptions),
    previous_hash: (Seq<char>, Seq<char>),
    dependencies_hash: (Seq<char>, Seq<char>),
    scripts_version: (Seq<char>, Seq<char>),
)
    requires
        fields_fit(
            chunk_identity(language.0, code.0, options.0, previous_hash.0, dependencies_hash.0, scripts_version.0),
        ),
        fields_fit(
            chunk_identity(language.1, code.1, options.1, previous_hash.1, dependencies_hash.1, scripts_version.1),
        ),
        frame(
            chunk_identity(language.0, code.0, options.0, previous_hash.0, dependencies_hash.0, scripts_version.0),
        ) == frame(
            chunk_identity(language.1, code.1, options.1, previous_hash.1, dependencies_hash.1, scripts_version.1),
        ),
        without_bar(resolve_v(options_view(options.0)).fig_width),
        without_bar(resolve_v(options_view(options.0)).fig_height),
        without_bar(resolve_v(options_view(options.1)).fig_width),
        without_bar(resolve_v(options_view(options.1)).fig_height),
    ensures
        resolve_v(options_view(options.0)).eval == resolve_v(options_view(options.1)).eval,
        resolve_v(options_view(options.0)).fig_width == resolve_v(options_view(options.1)).fig_width,
        resolve_v(options_view(options.0)).fig_height == resolve_v(options_view(options.1)).fig_height,
        resolve_v(options_view(options.0)).dpi == resolve_v(options_view(options.1)).dpi,
        resolve_v(options_view(options.0)).fig_format == resolve_v(options_view(options.1)).fig_format,
{
    law_chunk_identity_determines_its_inputs(
        language,
        code,
        options,
        previous_hash,
        dependencies_hash,
        scripts_version,
    );
    let r0 = resolve_v(options_view(options.0));
    let r1 = resolve_v(options_view(options.1));
    lemma_options_text_fields(options.0);
    lemma_options_text_fields(options.1);
    let bar = "|"@;
    reveal_strlit("|");
    reveal_strlit("true");
    reveal_strlit("false");
    reveal_strlit("Svg");
    reveal_strlit("Png");
    let d0 = decimal(r0.dpi as nat);
    let d1 = decimal(r1.dpi as nat);
    let f0 = fig_format_debug(r0.fig_format);
    let f1 = fig_format_debug(r1.fig_format);
    lemma_decimal_digits(r0.dpi as nat);
    lemma_decimal_digits(r1.dpi as nat);
    assert(without_bar(bool_text(r0.eval)));
    assert(without_bar(bool_text(r1.eval)));
    lemma_split_at_bar(
        bool_text(r0.eval),
        r0.fig_width + bar + (r0.fig_height + bar + (d0 + bar + f0)),
        bool_text(r1.eval),
        r1.fig_width + bar + (r1.fig_height + bar + (d1 + bar + f1)),
    );
    lemma_split_at_bar(
        r0.fig_width,
        r0.fig_height + bar + (d0 + bar + f0),
        r1.fig_width,
        r1.fig_height + bar + (d1 + bar + f1),
    );
    lemma_split_at_bar(r0.fig_height, d0 + bar + f0, r1.fig_height, d1 + bar + f1);
    lemma_split_at_bar(d0, f0, d1, f1);
    lemma_decimal_injective(r0.dpi as nat, r1.dpi as nat);
    if r0.eval != r1.eval {
        assert(bool_text(r0.eval).len() != bool_text(r1.eval).len());
    }
    if r0.fig_format != r1.fig_format {
        assert(f0[0] != f1[0]);
    }
}

/// The execution options text, read as its fields separated by `|`.
proof fn lemma_options_text_fields(o: ChunkOptions)
    ensures
        ({
            let r = resolve_v(options_view(o));
            execution_options_text(o) == bool_text(r.eval) + "|"@ + (r.fig_width + "|"@ + (
            r.fig_height + "|"@ + (decimal(r.dpi as nat) + "|"@ + fig_format_debug(r.fig_format))))
        }),
{
    let r = resolve_v(options_view(o));
    let b = "|"@;
    let e = bool_text(r.eval);
    let w = r.fig_width;
    let h = r.fig_height;
    let d = decimal(r.dpi as nat);
    let f = fig_format_debug(r.fig_format);
    assert(execution_options_text(o) == e + b + w + b + h + b + d + b + f);
    lemma_assoc(d, b, f);
    lemma_assoc(e + b + w + b + h + b, d, b + f);
    let t1 = d + (b + f);
    lemma_assoc(h, b, t1);
    lemma_assoc(e + b + w + b, h, b + t1);
    let t2 = h + (b + t1);
    lemma_assoc(w, b, t2);
    lemma_assoc(e + b, w, b + t2);
    let t3 = w + (b + t2);
    lemma_assoc(e, b, t3);
}

/// Concatenation is associative.
proof fn lemma_assoc(x: Seq<char>, y: Seq<char>, z: Seq<char>)
    ensures
        x + y + z == x + (y + z),
{
    assert(x + y + z =~= x + (y + z));
}

/// `a1|b1` and `a2|b2` are the same text, with no `|` in `a1` or `a2`, only
/// when `a1 == a2` and `b1 == b2`.
proof fn lemma_split_at_bar(a1: Seq<char>, b1: Seq<char>, a2: Seq<char>, b2: Seq<char>)
    requires
        a1 + "|"@ + b1 == a2 + "|"@ + b2,
        without_bar(a1),
        without_bar(a2),
    ensures
        a1 == a2,
        b1 == b2,
{
    reveal_strlit("|");
    let p1 = a1 + "|"@;
    let p2 = a2 + "|"@;
    let s = p1 + b1;
    assert(s == p2 + b2);
    assert(p1.len() == a1.len() + 1 && p2.len() == a2.len() + 1);
    if a1.len() < a2.len() {
        assert(s[a1.len() as int] == p1[a1.len() as int]);
        assert((p2 + b2)[a1.len() as int] == p2[a1.len() as int]);
        assert(p2[a1.len() as int] == a2[a1.len() as int]);
    } else if a2.len() < a1.len() {
        assert((p2 + b2)[a2.len() as int] == p2[a2.len() as int]);
        assert(s[a2.len() as int] == p1[a2.len() as int]);
        assert(p1[a2.len() as int] == a1[a2.len() as int]);
    } else {
        assert forall|i: int| 0 <= i < a1.len() implies a1[i] == a2[i] by {
            assert(s[i] == p1[i]);
            assert((p2 + b2)[i] == p2[i]);
        }
        assert(a1 =~= a2);
        assert(b1.len() == b2.len());
        assert forall|i: int| 0 <= i < b1.len() implies b1[i] == b2[i] by {
            assert(s[p1.len() + i] == b1[i]);
            assert((p2 + b2)[p2.len() + i] == b2[i]);
        }
        assert(b1 =~= b2);
    }
}

/// Decimal notation holds digits only, at least one, and two or more from
/// ten on.
proof fn lemma_decimal_digits(n: nat)
    ensures
        without_bar(decimal(n)),
        decimal(n).len() > 0,
        n >= 10 ==> decimal(n).len() >= 2,
    decreases n,
{
    if n < 10 {
        assert(decimal(n) == seq![digit(n)]);
    } else {
        lemma_decimal_digits(n / 10);
        let d = decimal(n / 10);
        assert(decimal(n) == d.push(digit(n % 10)));
    }
}

/// Equal decimal notations are notations of equal numbers.
pub proof fn lemma_decimal_injective(a: nat, b: nat)
    requires
        decimal(a) == decimal(b),
    ensures
        a == b,
    decreases a,
{
    lemma_decimal_digits(a);
    lemma_decimal_digits(b);
    if a < 10 && b < 10 {
        assert(decimal(a)[0] == digit(a));
        assert(decimal(b)[0] == digit(b));
    } else if a >= 10 && b >= 10 {
        let da = decimal(a / 10);
        let db = decimal(b / 10);
        assert(decimal(a) == da.push(digit(a % 10)));
        assert(decimal(b) == db.push(digit(b % 10)));
        assert(decimal(a).last() == digit(a % 10));
        assert(decimal(a).drop_last() =~= da);
        assert(decimal(b).drop_last() =~= db);
        lemma_decimal_injective(a / 10, b / 10);
        assert(a % 10 == b % 10);
        assert(a == (a / 10) * 10 + a % 10) by (nonlinear_arith);
        assert(b == (b / 10) * 10 + b % 10) by (nonlinear_arith);
    }
}

} // verus!
