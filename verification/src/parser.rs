//! The source model that language adapters produce: source files, spans with
//! line/column positions, definitions, imports and query results, and the offset
//! helpers that tolerate offsets outside the text.
use vstd::prelude::*;
use vstd::string::StringSliceAdditionalSpecFns;
use vstd::utf8::*;

use crate::findings::{lemma_text_position_bound, position_after, text_position};
use crate::text::{chars_of, lower_chars, push_char, spec_lower, string_from_chars};
use crate::utf8_facts::{lemma_decode_len, prefix_chars, range_chars, str_len_fits, str_range};

verus! {

broadcast use {
    vstd::string::group_string_axioms,
    vstd::utf8::encode_utf8_valid_utf8,
    vstd::utf8::encode_utf8_decode_utf8,
    vstd::utf8::is_char_boundary_start_end_of_seq,
};

/// What a language adapter supports.
#[derive(Debug, Clone, Copy)]
pub struct LanguageInfo {
    pub name: &'static str,
    pub extensions: &'static [&'static str],
    pub tree_sitter_grammar: &'static str,
}

/// `extension` without its leading dots.
pub open spec fn strip_leading_dots(extension: Seq<char>) -> Seq<char>
    decreases extension.len(),
{
    if extension.len() > 0 && extension[0] == '.' {
        strip_leading_dots(extension.drop_first())
    } else {
        extension
    }
}

impl LanguageInfo {
    /// Some listed extension equals `extension`, leading dots removed, up to ASCII case.
    pub open spec fn spec_supports_extension(&self, extension: Seq<char>) -> bool {
        exists|i: int|
            0 <= i < self.extensions@.len() && spec_lower((#[trigger] self.extensions@[i])@)
                == spec_lower(strip_leading_dots(extension))
    }

    /// Whether files with this extension belong to the language. Leading dots are
    /// ignored and the comparison ignores ASCII case.
    pub fn supports_extension(&self, extension: &str) -> (r: bool)
        ensures
            r == self.spec_supports_extension(extension@),
    {
        let chars = chars_of(extension);
        let mut start: usize = 0;
        assert(chars@.skip(0) =~= chars@);
        while start < chars.len() && chars[start] == '.'
            invariant
                start <= chars@.len(),
                strip_leading_dots(chars@) == strip_leading_dots(chars@.skip(start as int)),
            decreases chars.len() - start,
        {
            assert(chars@.skip(start as int).drop_first() =~= chars@.skip(start + 1));
            start = start + 1;
        }
        let mut bare: Vec<char> = Vec::new();
        let mut k = start;
        while k < chars.len()
            invariant
                start <= k <= chars@.len(),
                bare@ == chars@.subrange(start as int, k as int),
            decreases chars.len() - k,
        {
            bare.push(chars[k]);
            k = k + 1;
            assert(bare@ =~= chars@.subrange(start as int, k as int));
        }
        assert(bare@ =~= chars@.skip(start as int));
        assert(strip_leading_dots(bare@) == bare@);
        let wanted = lower_chars(&bare);
        for i in 0..self.extensions.len()
            invariant
                wanted@ == spec_lower(strip_leading_dots(extension@)),
                forall|j: int|
                    0 <= j < i ==> spec_lower((#[trigger] self.extensions@[j])@) != wanted@,
        {
            let candidate = lower_chars(&chars_of(self.extensions[i]));
            if crate::text::chars_eq(&candidate, &wanted) {
                return true;
            }
        }
        false
    }
}

/// A source file together with the language it was read as.
#[derive(Debug, Clone)]
pub struct SourceFile {
    pub path: String,
    pub language: LanguageInfo,
    pub source: String,
}

impl SourceFile {
    pub fn new(path: String, language: LanguageInfo, source: String) -> (r: SourceFile)
        ensures
            r.path == path,
            r.language == language,
            r.source == source,
    {
        SourceFile { path, language, source }
    }

    /// Length of the source in bytes.
    pub fn byte_len(&self) -> (r: usize)
        ensures
            r == encode_utf8(self.source@).len(),
    {
        let s = self.source.as_str();
        str_len_fits(s);
        s.len()
    }
}

/// Identity of a syntax node within one tree.
#[derive(Debug, Clone, Copy, PartialEq, Eq, Structural)]
pub struct SyntaxNodeId(pub usize);

/// A 1-based line and column.
#[derive(Debug, Clone, Copy, PartialEq, Eq, Structural)]
pub struct LineColumn {
    pub line: usize,
    pub column: usize,
}

/// A byte range together with the positions of its ends.
#[derive(Debug, Clone, Copy, PartialEq, Eq, Structural)]
pub struct Span {
    pub start: usize,
    pub end: usize,
    pub start_position: LineColumn,
    pub end_position: LineColumn,
}

impl Span {
    /// Number of bytes covered.
    pub fn len(self) -> (r: usize)
        requires
            self.start <= self.end,
        ensures
            r == self.end - self.start,
    {
        self.end - self.start
    }

    /// Whether the span covers no bytes.
    pub fn is_empty(self) -> (r: bool)
        ensures
            r == (self.start == self.end),
    {
        self.start == self.end
    }
}

/// A syntax error or missing node reported by the parser.
#[derive(Debug, Clone)]
pub struct ParseDiagnostic {
    pub message: String,
    pub span: Span,
    pub node_kind: String,
}

/// The kind of a definition found by a language adapter.
#[derive(Debug, Clone, Copy, PartialEq, Eq, Structural)]
pub enum DefinitionKind {
    Function,
    ArrowFunction,
    Class,
    Method,
    Component,
    Hook,
    ImplMethod,
    TraitMethod,
}

impl DefinitionKind {
    /// Stable snake-case label.
    pub open spec fn spec_label(self) -> Seq<char> {
        match self {
            DefinitionKind::Function => "function"@,
            DefinitionKind::ArrowFunction => "arrow_function"@,
            DefinitionKind::Class => "class"@,
            DefinitionKind::Method => "method"@,
            DefinitionKind::Component => "component"@,
            DefinitionKind::Hook => "hook"@,
            DefinitionKind::ImplMethod => "impl_method"@,
            DefinitionKind::TraitMethod => "trait_method"@,
        }
    }

    /// Stable snake-case label.
    pub fn label(self) -> (r: &'static str)
        ensures
            r@ == self.spec_label(),
            r@ == (match self {
                DefinitionKind::Function => "function"@,
                DefinitionKind::ArrowFunction => "arrow_function"@,
                DefinitionKind::Class => "class"@,
                DefinitionKind::Method => "method"@,
                DefinitionKind::Component => "component"@,
                DefinitionKind::Hook => "hook"@,
                DefinitionKind::ImplMethod => "impl_method"@,
                DefinitionKind::TraitMethod => "trait_method"@,
            }),
    {
        match self {
            DefinitionKind::Function => "function",
            DefinitionKind::ArrowFunction => "arrow_function",
            DefinitionKind::Class => "class",
            DefinitionKind::Method => "method",
            DefinitionKind::Component => "component",
            DefinitionKind::Hook => "hook",
            DefinitionKind::ImplMethod => "impl_method",
            DefinitionKind::TraitMethod => "trait_method",
        }
    }
}

/// A function, class, method, component or hook definition.
#[derive(Debug, Clone)]
pub struct Definition {
    pub name: String,
    pub kind: DefinitionKind,
    pub language: String,
    pub path: String,
    pub span: Span,
    pub name_span: Option<Span>,
    pub body_span: Option<Span>,
    pub exported: bool,
    pub is_async: bool,
    pub parent: Option<String>,
}

/// The kind of an import statement.
#[derive(Debug, Clone, Copy, PartialEq, Eq, Structural)]
pub enum ImportKind {
    EsModule,
    PythonImport,
    PythonFrom,
    RustUse,
    Unknown,
}

impl ImportKind {
    /// Stable snake-case label.
    pub fn label(self) -> (r: &'static str)
        ensures
            r@ == (match self {
                ImportKind::EsModule => "es_module"@,
                ImportKind::PythonImport => "python_import"@,
                ImportKind::PythonFrom => "python_from"@,
                ImportKind::RustUse => "rust_use"@,
                ImportKind::Unknown => "unknown"@,
            }),
    {
        match self {
            ImportKind::EsModule => "es_module",
            ImportKind::PythonImport => "python_import",
            ImportKind::PythonFrom => "python_from",
            ImportKind::RustUse => "rust_use",
            ImportKind::Unknown => "unknown",
        }
    }
}

/// An import statement.
#[derive(Debug, Clone)]
pub struct Import {
    pub module: String,
    pub imported_names: Vec<String>,
    pub kind: ImportKind,
    pub language: String,
    pub path: String,
    pub span: Span,
}

/// The query a language adapter runs.
#[derive(Debug, Clone, Copy, PartialEq, Eq, Structural)]
pub enum QueryKind {
    Definitions,
    Imports,
}

impl QueryKind {
    /// Stable label.
    pub fn label(self) -> (r: &'static str)
        ensures
            r@ == (match self {
                QueryKind::Definitions => "definitions"@,
                QueryKind::Imports => "imports"@,
            }),
    {
        match self {
            QueryKind::Definitions => "definitions",
            QueryKind::Imports => "imports",
        }
    }
}

/// Source text of a query, by kind and version.
#[derive(Debug, Clone, Copy)]
pub struct QuerySpec {
    pub kind: QueryKind,
    pub version: u32,
    pub source: &'static str,
}

/// One match of a query.
#[derive(Debug, Clone)]
pub struct QueryMatch {
    pub pattern_index: usize,
    pub captures: Vec<QueryCapture>,
}

/// One named capture of a query match.
#[derive(Debug, Clone)]
pub struct QueryCapture {
    pub name: String,
    pub node_kind: String,
    pub text: String,
    pub span: Span,
}

/// The offset that positions are computed for: `byte_offset` clamped to the source and
/// moved back to the nearest character boundary.
pub open spec fn effective_offset(bytes: Seq<u8>, byte_offset: int) -> int
    decreases byte_offset,
{
    let bounded = if byte_offset < bytes.len() {
        byte_offset
    } else {
        bytes.len() as int
    };
    if bounded <= 0 || is_char_boundary(bytes, bounded) {
        if bounded < 0 {
            0
        } else {
            bounded
        }
    } else {
        effective_offset(bytes, bounded - 1)
    }
}

/// Line and column of `byte_offset` in `source`. Offsets past the end count as the
/// end; offsets inside a multi-byte character count as the start of that character.
pub fn line_column_for_offset(source: &str, byte_offset: usize) -> (r: LineColumn)
    requires
        source.spec_bytes().len() < usize::MAX,
    ensures
        r.line == text_position(
            prefix_chars(source.spec_bytes(), effective_offset(source.spec_bytes(), byte_offset as int)),
        ).0,
        r.column == text_position(
            prefix_chars(source.spec_bytes(), effective_offset(source.spec_bytes(), byte_offset as int)),
        ).1,
{
    str_len_fits(source);
    let ghost bytes = source.spec_bytes();
    let bounded = if byte_offset < source.len() {
        byte_offset
    } else {
        source.len()
    };
    let mut adjusted = bounded;
    assert(effective_offset(bytes, byte_offset as int) == effective_offset(bytes, bounded as int));
    while adjusted > 0 && !source.is_char_boundary(adjusted)
        invariant
            adjusted <= bytes.len(),
            bytes == source.spec_bytes(),
            effective_offset(bytes, byte_offset as int) == effective_offset(bytes, adjusted as int),
        decreases adjusted,
    {
        adjusted = adjusted - 1;
    }
    assert(is_char_boundary(bytes, adjusted as int));
    assert(effective_offset(bytes, adjusted as int) == adjusted);
    let prefix = str_range(source, 0, adjusted);
    proof {
        lemma_decode_len(bytes.subrange(0, adjusted as int));
    }
    let (line, column) = position_after(prefix);
    LineColumn { line, column }
}

/// A span from `start` to `end` with the positions of both ends.
pub fn span_for_offsets(source: &str, start: usize, end: usize) -> (r: Span)
    requires
        source.spec_bytes().len() < usize::MAX,
    ensures
        r.start == start,
        r.end == end,
        r.start_position.line == text_position(
            prefix_chars(source.spec_bytes(), effective_offset(source.spec_bytes(), start as int)),
        ).0,
        r.start_position.column == text_position(
            prefix_chars(source.spec_bytes(), effective_offset(source.spec_bytes(), start as int)),
        ).1,
        r.end_position.line == text_position(
            prefix_chars(source.spec_bytes(), effective_offset(source.spec_bytes(), end as int)),
        ).0,
        r.end_position.column == text_position(
            prefix_chars(source.spec_bytes(), effective_offset(source.spec_bytes(), end as int)),
        ).1,
{
    Span {
        start,
        end,
        start_position: line_column_for_offset(source, start),
        end_position: line_column_for_offset(source, end),
    }
}

/// The text that `snippet` shows: the span's characters, cut to `max_chars` with `...`
/// appended when cut, or nothing when the clamped span is empty or splits a character.
pub open spec fn spec_snippet(bytes: Seq<u8>, span: Span, max_chars: nat) -> Seq<char> {
    let start = if span.start < bytes.len() {
        span.start as int
    } else {
        bytes.len() as int
    };
    let end = if span.end < bytes.len() {
        span.end as int
    } else {
        bytes.len() as int
    };
    if start >= end || !is_char_boundary(bytes, start) || !is_char_boundary(bytes, end) {
        seq![]
    } else {
        let raw = range_chars(bytes, start, end);
        if raw.len() > max_chars {
            raw.take(max_chars as int) + "..."@
        } else {
            raw
        }
    }
}

/// At most `max_chars` characters of the text under `span`, with `...` when cut.
pub fn snippet(source: &str, span: Span, max_chars: usize) -> (r: String)
    ensures
        r@ == spec_snippet(source.spec_bytes(), span, max_chars as nat),
{
    proof {
        reveal_strlit("...");
    }
    str_len_fits(source);
    let start = if span.start < source.len() {
        span.start
    } else {
        source.len()
    };
    let end = if span.end < source.len() {
        span.end
    } else {
        source.len()
    };
    if start >= end || !source.is_char_boundary(start) || !source.is_char_boundary(end) {
        return String::new();
    }
    let raw = chars_of(str_range(source, start, end));
    let mut out: Vec<char> = Vec::new();
    let mut i: usize = 0;
    while i < raw.len() && i < max_chars
        invariant
            i <= raw@.len(),
            i <= max_chars,
            out@ == raw@.take(i as int),
        decreases raw.len() - i,
    {
        out.push(raw[i]);
        i = i + 1;
        assert(out@ =~= raw@.take(i as int));
    }
    if raw.len() > max_chars {
        out.push('.');
        out.push('.');
        out.push('.');
        assert(out@ =~= raw@.take(max_chars as int) + "..."@);
    } else {
        assert(out@ =~= raw@);
    }
    string_from_chars(&out)
}

} // verus!
