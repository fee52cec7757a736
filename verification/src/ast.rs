//! Options of code chunks and inline expressions, as written in a document,
//! and their values once defaults are applied.
use vstd::prelude::*;

verus! {

/// What a chunk or inline expression shows.
#[derive(Debug, Clone, Copy, PartialEq, Eq, Structural)]
pub enum Show {
    /// Code and output.
    Both,
    /// Code only.
    Code,
    /// Output only.
    Output,
    /// Nothing (written `none`).
    Hidden,
}

/// Placement of code and output when both are shown.
#[derive(Debug, Clone, Copy, PartialEq, Eq, Structural)]
pub enum Layout {
    /// Side by side.
    Horizontal,
    /// One above the other.
    Vertical,
}

/// Where the warnings of a chunk are shown.
#[derive(Debug, Clone, Copy, PartialEq, Eq, Structural)]
pub enum WarningsVisibility {
    /// Below the chunk.
    Below,
    /// Inline, next to the output.
    Inline,
    /// Not shown (written `none`).
    Hidden,
}

/// File format of figures.
#[derive(Debug, Clone, Copy, PartialEq, Eq, Structural)]
pub enum FigFormat {
    /// Scalable vector graphics.
    Svg,
    /// Portable network graphics.
    Png,
}

/// `Debug` name of a figure format.
pub open spec fn fig_format_debug(f: FigFormat) -> Seq<char> {
    match f {
        FigFormat::Svg => "Svg"@,
        FigFormat::Png => "Png"@,
    }
}

/// `Debug` name of a `Show` value.
pub open spec fn show_debug(s: Show) -> Seq<char> {
    match s {
        Show::Both => "Both"@,
        Show::Code => "Code"@,
        Show::Output => "Output"@,
        Show::Hidden => "None"@,
    }
}

/// File extension of a figure format.
pub open spec fn fig_format_name(f: FigFormat) -> Seq<char> {
    match f {
        FigFormat::Svg => "svg"@,
        FigFormat::Png => "png"@,
    }
}

impl FigFormat {
    /// The file extension of the format.
    pub fn as_str(&self) -> (r: &'static str)
        ensures
            r@ == fig_format_name(*self),
    {
        match self {
            FigFormat::Svg => "svg",
            FigFormat::Png => "png",
        }
    }

    /// The `Debug` name of the format.
    pub fn debug_name(&self) -> (r: &'static str)
        ensures
            r@ == fig_format_debug(*self),
    {
        match self {
            FigFormat::Svg => "Svg",
            FigFormat::Png => "Png",
        }
    }
}

impl Show {
    /// The `Debug` name of the value.
    pub fn debug_name(&self) -> (r: &'static str)
        ensures
            r@ == show_debug(*self),
    {
        match self {
            Show::Both => "Both",
            Show::Code => "Code",
            Show::Output => "Output",
            Show::Hidden => "None",
        }
    }
}

/// How serious a diagnostic is.
#[derive(Debug, Clone, Copy, PartialEq, Eq, Structural)]
pub enum Severity {
    /// The option is wrong and was not applied.
    Error,
    /// The option was applied but deserves attention.
    Warning,
}

/// A diagnostic about the options of a chunk.
#[derive(Debug, Clone)]
pub struct ChunkError {
    /// Text of the diagnostic.
    pub message: String,
    /// Line of the chunk it concerns, when known.
    pub line: Option<usize>,
    /// Whether it is an error or a warning.
    pub severity: Severity,
}

impl ChunkError {
    /// An error about an option.
    pub fn new(message: &str, line: Option<usize>) -> (r: ChunkError)
        ensures
            r.message@ == message@,
            r.line == line,
            r.severity == Severity::Error,
    {
        ChunkError { message: message.to_string(), line, severity: Severity::Error }
    }

    /// A warning about an option.
    pub fn warning(message: &str, line: Option<usize>) -> (r: ChunkError)
        ensures
            r.message@ == message@,
            r.line == line,
            r.severity == Severity::Warning,
    {
        ChunkError { message: message.to_string(), line, severity: Severity::Warning }
    }

    /// Whether the diagnostic is an error.
    pub fn is_error(&self) -> (r: bool)
        ensures
            r == (self.severity == Severity::Error),
    {
        match self.severity {
            Severity::Error => true,
            Severity::Warning => false,
        }
    }
}

/// Options of a code chunk as written (`#| key: value` lines); unset options
/// take their default when resolved.
///
/// Figure dimensions are numbers in inches, held in the notation in which
/// they are displayed (`7`, `4.5`).
#[derive(Debug, Clone, Default)]
pub struct ChunkOptions {
    pub eval: Option<bool>,
    pub show: Option<Show>,
    pub cache: Option<bool>,
    pub caption: Option<String>,
    pub depends: Vec<String>,
    pub fig_width: Option<String>,
    pub fig_height: Option<String>,
    pub dpi: Option<u32>,
    pub fig_format: Option<FigFormat>,
    pub freeze: Vec<String>,
    pub layout: Option<Layout>,
    pub warnings_visibility: Option<WarningsVisibility>,
    pub gutter: Option<String>,
    pub code_background: Option<String>,
    pub code_stroke: Option<String>,
    pub code_radius: Option<String>,
    pub code_inset: Option<String>,
    pub output_background: Option<String>,
    pub output_stroke: Option<String>,
    pub output_radius: Option<String>,
    pub output_inset: Option<String>,
    pub warning_background: Option<String>,
    pub warning_stroke: Option<String>,
    pub warning_radius: Option<String>,
    pub warning_inset: Option<String>,
    pub width_ratio: Option<String>,
    pub align: Option<String>,
}

/// Chunk options with every default applied.
#[derive(Debug, Clone)]
pub struct ResolvedChunkOptions {
    pub eval: bool,
    pub show: Show,
    pub cache: bool,
    pub fig_width: String,
    pub fig_height: String,
    pub dpi: u32,
    pub fig_format: FigFormat,
    pub layout: Layout,
    pub warnings_visibility: WarningsVisibility,
    pub gutter: Option<String>,
    pub code_background: Option<String>,
    pub code_stroke: Option<String>,
    pub code_radius: Option<String>,
    pub code_inset: Option<String>,
    pub output_background: Option<String>,
    pub output_stroke: Option<String>,
    pub output_radius: Option<String>,
    pub output_inset: Option<String>,
    pub warning_background: Option<String>,
    pub warning_stroke: Option<String>,
    pub warning_radius: Option<String>,
    pub warning_inset: Option<String>,
    pub width_ratio: Option<String>,
    pub align: Option<String>,
}

/// Default figure width, in inches.
pub const DEFAULT_FIG_WIDTH: &'static str = "7";

/// Default figure height, in inches.
pub const DEFAULT_FIG_HEIGHT: &'static str = "5";

/// Default figure resolution, in dots per inch.
pub const DEFAULT_DPI: u32 = 300;

/// The value of an optional setting, or its default.
pub open spec fn or_default<T>(o: Option<T>, d: T) -> T {
    match o {
        Some(v) => v,
        None => d,
    }
}

/// What the options of a chunk hold, lists by their items.
pub struct OptionsV {
    pub eval: Option<bool>,
    pub show: Option<Show>,
    pub cache: Option<bool>,
    pub caption: Option<String>,
    pub depends: Seq<String>,
    pub fig_width: Option<String>,
    pub fig_height: Option<String>,
    pub dpi: Option<u32>,
    pub fig_format: Option<FigFormat>,
    pub freeze: Seq<String>,
    pub layout: Option<Layout>,
    pub warnings_visibility: Option<WarningsVisibility>,
    pub gutter: Option<String>,
    pub code_background: Option<String>,
    pub code_stroke: Option<String>,
    pub code_radius: Option<String>,
    pub code_inset: Option<String>,
    pub output_background: Option<String>,
    pub output_stroke: Option<String>,
    pub output_radius: Option<String>,
    pub output_inset: Option<String>,
    pub warning_background: Option<String>,
    pub warning_stroke: Option<String>,
    pub warning_radius: Option<String>,
    pub warning_inset: Option<String>,
    pub width_ratio: Option<String>,
    pub align: Option<String>,
}

/// What options hold.
pub open spec fn options_view(o: ChunkOptions) -> OptionsV {
    OptionsV {
        eval: o.eval,
        show: o.show,
        cache: o.cache,
        caption: o.caption,
        depends: o.depends@,
        fig_width: o.fig_width,
        fig_height: o.fig_height,
        dpi: o.dpi,
        fig_format: o.fig_format,
        freeze: o.freeze@,
        layout: o.layout,
        warnings_visibility: o.warnings_visibility,
        gutter: o.gutter,
        code_background: o.code_background,
        code_stroke: o.code_stroke,
        code_radius: o.code_radius,
        code_inset: o.code_inset,
        output_background: o.output_background,
        output_stroke: o.output_stroke,
        output_radius: o.output_radius,
        output_inset: o.output_inset,
        warning_background: o.warning_background,
        warning_stroke: o.warning_stroke,
        warning_radius: o.warning_radius,
        warning_inset: o.warning_inset,
        width_ratio: o.width_ratio,
        align: o.align,
    }
}

/// What resolved options hold, figure dimensions by their text.
pub struct ResolvedV {
    pub eval: bool,
    pub show: Show,
    pub cache: bool,
    pub fig_width: Seq<char>,
    pub fig_height: Seq<char>,
    pub dpi: u32,
    pub fig_format: FigFormat,
    pub layout: Layout,
    pub warnings_visibility: WarningsVisibility,
    pub gutter: Option<String>,
    pub code_background: Option<String>,
    pub code_stroke: Option<String>,
    pub code_radius: Option<String>,
    pub code_inset: Option<String>,
    pub output_background: Option<String>,
    pub output_stroke: Option<String>,
    pub output_radius: Option<String>,
    pub output_inset: Option<String>,
    pub warning_background: Option<String>,
    pub warning_stroke: Option<String>,
    pub warning_radius: Option<String>,
    pub warning_inset: Option<String>,
    pub width_ratio: Option<String>,
    pub align: Option<String>,
}

/// What resolved options hold.
pub open spec fn resolved_view(r: ResolvedChunkOptions) -> ResolvedV {
    ResolvedV {
        eval: r.eval,
        show: r.show,
        cache: r.cache,
        fig_width: r.fig_width@,
        fig_height: r.fig_height@,
        dpi: r.dpi,
        fig_format: r.fig_format,
        layout: r.layout,
        warnings_visibility: r.warnings_visibility,
        gutter: r.gutter,
        code_background: r.code_background,
        code_stroke: r.code_stroke,
        code_radius: r.code_radius,
        code_inset: r.code_inset,
        output_background: r.output_background,
        output_stroke: r.output_stroke,
        output_radius: r.output_radius,
        output_inset: r.output_inset,
        warning_background: r.warning_background,
        warning_stroke: r.warning_stroke,
        warning_radius: r.warning_radius,
        warning_inset: r.warning_inset,
        width_ratio: r.width_ratio,
        align: r.align,
    }
}

/// Options with every default applied: evaluated, code and output shown,
/// cached, 7 by 5 inch SVG figures at 300 dpi, side by side, warnings below.
pub open spec fn resolve_v(o: OptionsV) -> ResolvedV {
    ResolvedV {
        eval: or_default(o.eval, true),
        show: or_default(o.show, Show::Both),
        cache: or_default(o.cache, true),
        fig_width: match o.fig_width {
            Some(w) => w@,
            None => DEFAULT_FIG_WIDTH@,
        },
        fig_height: match o.fig_height {
            Some(h) => h@,
            None => DEFAULT_FIG_HEIGHT@,
        },
        dpi: or_default(o.dpi, DEFAULT_DPI),
        fig_format: or_default(o.fig_format, FigFormat::Svg),
        layout: or_default(o.layout, Layout::Horizontal),
        warnings_visibility: or_default(o.warnings_visibility, WarningsVisibility::Below),
        gutter: o.gutter,
        code_background: o.code_background,
        code_stroke: o.code_stroke,
        code_radius: o.code_radius,
        code_inset: o.code_inset,
        output_background: o.output_background,
        output_stroke: o.output_stroke,
        output_radius: o.output_radius,
        output_inset: o.output_inset,
        warning_background: o.warning_background,
        warning_stroke: o.warning_stroke,
        warning_radius: o.warning_radius,
        warning_inset: o.warning_inset,
        width_ratio: o.width_ratio,
        align: o.align,
    }
}

/// Copy of a string.
fn copy_string(s: &String) -> (r: String)
    ensures
        r == *s,
{
    s.clone()
}

/// Copy of an optional string.
fn copy_opt(s: &Option<String>) -> (r: Option<String>)
    ensures
        r == *s,
{
    match s {
        Some(v) => Some(copy_string(v)),
        None => None,
    }
}

impl ChunkOptions {
    /// The options with every default applied: evaluated, code and output
    /// shown, cached, 7 by 5 inch SVG figures at 300 dpi, side by side,
    /// warnings below.
    pub fn resolve(&self) -> (r: ResolvedChunkOptions)
        ensures
            resolved_view(r) == resolve_v(options_view(*self)),
            r.eval == or_default(self.eval, true),
            r.show == or_default(self.show, Show::Both),
            r.cache == or_default(self.cache, true),
            r.fig_width@ == match self.fig_width {
                Some(w) => w@,
                None => DEFAULT_FIG_WIDTH@,
            },
            r.fig_height@ == match self.fig_height {
                Some(h) => h@,
                None => DEFAULT_FIG_HEIGHT@,
            },
            r.dpi == or_default(self.dpi, DEFAULT_DPI),
            r.fig_format == or_default(self.fig_format, FigFormat::Svg),
            r.layout == or_default(self.layout, Layout::Horizontal),
            r.warnings_visibility == or_default(
                self.warnings_visibility,
                WarningsVisibility::Below,
            ),
            r.gutter is None <==> self.gutter is None,
            r.gutter matches Some(v) ==> v@ == self.gutter->0@,
            r.code_background is None <==> self.code_background is None,
            r.code_background matches Some(v) ==> v@ == self.code_background->0@,
            r.code_stroke is None <==> self.code_stroke is None,
            r.code_stroke matches Some(v) ==> v@ == self.code_stroke->0@,
            r.code_radius is None <==> self.code_radius is None,
            r.code_radius matches Some(v) ==> v@ == self.code_radius->0@,
            r.code_inset is None <==> self.code_inset is None,
            r.code_inset matches Some(v) ==> v@ == self.code_inset->0@,
            r.output_background is None <==> self.output_background is None,
            r.output_background matches Some(v) ==> v@ == self.output_background->0@,
            r.output_stroke is None <==> self.output_stroke is None,
            r.output_stroke matches Some(v) ==> v@ == self.output_stroke->0@,
            r.output_radius is None <==> self.output_radius is None,
            r.output_radius matches Some(v) ==> v@ == self.output_radius->0@,
            r.output_inset is None <==> self.output_inset is None,
            r.output_inset matches Some(v) ==> v@ == self.output_inset->0@,
            r.warning_background is None <==> self.warning_background is None,
            r.warning_background matches Some(v) ==> v@ == self.warning_background->0@,
            r.warning_stroke is None <==> self.warning_stroke is None,
            r.warning_stroke matches Some(v) ==> v@ == self.warning_stroke->0@,
            r.warning_radius is None <==> self.warning_radius is None,
            r.warning_radius matches Some(v) ==> v@ == self.warning_radius->0@,
            r.warning_inset is None <==> self.warning_inset is None,
            r.warning_inset matches Some(v) ==> v@ == self.warning_inset->0@,
            r.width_ratio is None <==> self.width_ratio is None,
            r.width_ratio matches Some(v) ==> v@ == self.width_ratio->0@,
            r.align is None <==> self.align is None,
            r.align matches Some(v) ==> v@ == self.align->0@,
    {
        ResolvedChunkOptions {
            eval: match self.eval {
                Some(b) => b,
                None => true,
            },
            show: match self.show {
                Some(s) => s,
                None => Show::Both,
            },
            cache: match self.cache {
                Some(b) => b,
                None => true,
            },
            fig_width: match &self.fig_width {
                Some(w) => copy_string(w),
                None => DEFAULT_FIG_WIDTH.to_string(),
            },
            fig_height: match &self.fig_height {
                Some(h) => copy_string(h),
                None => DEFAULT_FIG_HEIGHT.to_string(),
            },
            dpi: match self.dpi {
                Some(d) => d,
                None => DEFAULT_DPI,
            },
            fig_format: match self.fig_format {
                Some(f) => f,
                None => FigFormat::Svg,
            },
            layout: match self.layout {
                Some(l) => l,
                None => Layout::Horizontal,
            },
            warnings_visibility: match self.warnings_visibility {
                Some(w) => w,
                None => WarningsVisibility::Below,
            },
            gutter: copy_opt(&self.gutter),
            code_background: copy_opt(&self.code_background),
            code_stroke: copy_opt(&self.code_stroke),
            code_radius: copy_opt(&self.code_radius),
            code_inset: copy_opt(&self.code_inset),
            output_background: copy_opt(&self.output_background),
            output_stroke: copy_opt(&self.output_stroke),
            output_radius: copy_opt(&self.output_radius),
            output_inset: copy_opt(&self.output_inset),
            warning_background: copy_opt(&self.warning_background),
            warning_stroke: copy_opt(&self.warning_stroke),
            warning_radius: copy_opt(&self.warning_radius),
            warning_inset: copy_opt(&self.warning_inset),
            width_ratio: copy_opt(&self.width_ratio),
            align: copy_opt(&self.align),
        }
    }
}

/// Options of an inline expression as written.
#[derive(Debug, Clone, Copy, Default, PartialEq, Eq)]
pub struct InlineOptions {
    pub eval: Option<bool>,
    pub show: Option<Show>,
    pub digits: Option<u32>,
}

/// Inline options with defaults applied.
#[derive(Debug, Clone, Copy, PartialEq, Eq, Structural)]
pub struct ResolvedInlineOptions {
    pub eval: bool,
    pub show: Show,
    pub digits: Option<u32>,
}

/// Inline options with defaults applied: evaluated, output shown.
pub open spec fn resolve_inline(o: InlineOptions) -> ResolvedInlineOptions {
    ResolvedInlineOptions {
        eval: or_default(o.eval, true),
        show: or_default(o.show, Show::Output),
        digits: o.digits,
    }
}

impl InlineOptions {
    /// The options with defaults applied: evaluated, output shown.
    pub fn resolve(&self) -> (r: ResolvedInlineOptions)
        ensures
            r == resolve_inline(*self),
    {
        ResolvedInlineOptions {
            eval: match self.eval {
                Some(b) => b,
                None => true,
            },
            show: match self.show {
                Some(s) => s,
                None => Show::Output,
            },
            digits: self.digits,
        }
    }
}

/// A fenced code chunk of a document.
#[derive(Debug, Clone)]
pub struct Chunk {
    /// Position of the chunk among the chunks of its document.
    pub index: usize,
    /// Language tag of the chunk.
    pub language: String,
    /// Code of the chunk.
    pub code: String,
    /// Label of the chunk, if named.
    pub name: Option<String>,
    /// Options written in the chunk.
    pub options: ChunkOptions,
    /// Codly presentation options written in the chunk.
    pub codly_options: Vec<(String, String)>,
    /// Diagnostics about the options.
    pub errors: Vec<ChunkError>,
    /// 0-based line of the opening fence.
    pub start_line: usize,
    /// Byte offset of the opening fence.
    pub start_byte: usize,
    /// Byte offset just after the closing fence.
    pub end_byte: usize,
}

/// An inline expression `` `{lang} code` `` of a document.
#[derive(Debug, Clone)]
pub struct InlineExpr {
    /// Language tag.
    pub language: String,
    /// Code of the expression.
    pub code: String,
    /// Options written in the expression.
    pub options: InlineOptions,
    /// Diagnostics about the options.
    pub errors: Vec<ChunkError>,
    /// Byte offset where the expression begins.
    pub start: usize,
    /// Byte offset where the expression ends.
    pub end: usize,
    /// Byte offset where the code begins.
    pub code_start_byte: usize,
    /// Byte offset where the code ends.
    pub code_end_byte: usize,
}

} // verus!
