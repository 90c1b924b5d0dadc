//! Public and internal data types of the optimizer.

use vstd::prelude::*;

verus! {

/// Top-level configuration for transforming one or more modules.
#[derive(Debug, Clone)]
pub struct TransformModulesOptions {
    /// Root directory for resolving relative paths.
    pub src_dir: String,
    /// Optional root directory override (monorepo setups).
    pub root_dir: Option<String>,
    /// Input modules to transform.
    pub input: Vec<TransformModuleInput>,
    /// Whether to generate source maps (default `true`).
    pub source_maps: bool,
    /// Minification mode (default `Simplify`).
    pub minify: MinifyMode,
    /// Whether to strip TypeScript type annotations.
    pub transpile_ts: bool,
    /// Whether to transpile JSX to function calls.
    pub transpile_jsx: bool,
    /// Whether output paths keep the input file names.
    pub preserve_filenames: bool,
    /// How extracted segments are split into output modules (default `Segment`).
    pub entry_strategy: EntryStrategy,
    /// Whether import paths carry explicit file extensions.
    pub explicit_extensions: bool,
    /// Build target (default `Lib`).
    pub mode: EmitMode,
    /// Optional scope prefix mixed into segment hashes.
    pub scope: Option<String>,
    /// Override of the core module import path.
    pub core_module: Option<String>,
    /// Export names to strip from the output.
    pub strip_exports: Option<Vec<String>>,
    /// Context names whose segments are stripped.
    pub strip_ctx_name: Option<Vec<String>>,
    /// Whether event handler registrations are stripped.
    pub strip_event_handlers: bool,
    /// Context names to register.
    pub reg_ctx_name: Option<Vec<String>>,
    /// Whether the build targets SSR.
    pub is_server: Option<bool>,
}

/// The value that a missing boolean option takes when it defaults to on.
pub fn default_true() -> (r: bool)
    ensures
        r,
{
    true
}

impl TransformModulesOptions {
    /// The options that `default()` gives.
    pub open spec fn is_default(self) -> bool {
        &&& self.src_dir@ == seq!['.']
        &&& self.root_dir is None
        &&& self.input@.len() == 0
        &&& self.source_maps
        &&& self.minify == MinifyMode::Simplify
        &&& !self.transpile_ts
        &&& !self.transpile_jsx
        &&& !self.preserve_filenames
        &&& self.entry_strategy == EntryStrategy::Segment
        &&& !self.explicit_extensions
        &&& self.mode == EmitMode::Lib
        &&& self.scope is None
        &&& self.core_module is None
        &&& self.strip_exports is None
        &&& self.strip_ctx_name is None
        &&& !self.strip_event_handlers
        &&& self.reg_ctx_name is None
        &&& self.is_server is None
    }
}

impl Default for TransformModulesOptions {
    fn default() -> (r: Self)
        ensures
            r.is_default(),
    {
        let src_dir = String::from_str(".");
        proof {
            reveal_strlit(".");
        }
        assert(src_dir@ =~= seq!['.']);
        let input: Vec<TransformModuleInput> = Vec::new();
        TransformModulesOptions {
            src_dir,
            root_dir: None,
            input,
            source_maps: default_true(),
            minify: MinifyMode::Simplify,
            transpile_ts: false,
            transpile_jsx: false,
            preserve_filenames: false,
            entry_strategy: EntryStrategy::Segment,
            explicit_extensions: false,
            mode: EmitMode::Lib,
            scope: None,
            core_module: None,
            strip_exports: None,
            strip_ctx_name: None,
            strip_event_handlers: false,
            reg_ctx_name: None,
            is_server: None,
        }
    }
}

/// A single input file to transform.
#[derive(Debug, Clone)]
pub struct TransformModuleInput {
    /// The source code.
    pub code: String,
    /// The file path, relative to `src_dir`.
    pub path: String,
    /// Optional development path override (HMR/dev mode).
    pub dev_path: Option<String>,
}

/// Complete result of transforming one or more modules.
#[derive(Debug, Clone)]
pub struct TransformOutput {
    /// All output modules: main modules and extracted segments.
    pub modules: Vec<TransformModule>,
    /// Diagnostics from the transformation.
    pub diagnostics: Vec<Diagnostic>,
    /// Whether any input was TypeScript.
    pub is_type_script: bool,
    /// Whether any input contained JSX.
    pub is_jsx: bool,
}

impl Default for TransformOutput {
    fn default() -> (r: Self)
        ensures
            r.modules@.len() == 0,
            r.diagnostics@.len() == 0,
            !r.is_type_script,
            !r.is_jsx,
    {
        TransformOutput {
            modules: Vec::new(),
            diagnostics: Vec::new(),
            is_type_script: false,
            is_jsx: false,
        }
    }
}

impl TransformOutput {
    /// Merge another output into this one: its modules and diagnostics move to
    /// the end of this output's lists, and the flags are or-ed.
    pub fn append(&mut self, other: &mut TransformOutput)
        ensures
            final(self).modules@ == old(self).modules@ + old(other).modules@,
            final(self).diagnostics@ == old(self).diagnostics@ + old(other).diagnostics@,
            final(self).is_type_script == (old(self).is_type_script || old(other).is_type_script),
            final(self).is_jsx == (old(self).is_jsx || old(other).is_jsx),
            final(other).modules@.len() == 0,
            final(other).diagnostics@.len() == 0,
            final(other).is_type_script == old(other).is_type_script,
            final(other).is_jsx == old(other).is_jsx,
    {
        self.modules.append(&mut other.modules);
        self.diagnostics.append(&mut other.diagnostics);
        self.is_type_script = self.is_type_script || other.is_type_script;
        self.is_jsx = self.is_jsx || other.is_jsx;
    }
}

/// A single output module (a transformed main module or an extracted segment).
#[derive(Debug, Clone)]
pub struct TransformModule {
    /// Output file path, relative to `src_dir`.
    pub path: String,
    /// Whether this module is an entry point.
    pub is_entry: bool,
    /// The generated JavaScript source.
    pub code: String,
    /// Optional source map.
    pub map: Option<String>,
    /// Segment metadata, present only for extracted segments.
    pub segment: Option<SegmentAnalysis>,
    /// The input path.
    pub orig_path: Option<String>,
    /// Sort key for deterministic output order.
    pub order: u64,
}

/// Metadata about an extracted segment.
#[derive(Debug)]
pub struct SegmentAnalysis {
    /// Source file the segment was extracted from.
    pub origin: String,
    /// Full segment name including hash.
    pub name: String,
    /// Entry point name, if the segment is grouped into a named entry.
    pub entry: Option<String>,
    /// Human-readable display name.
    pub display_name: String,
    /// The 11-character hash.
    pub hash: String,
    /// Canonical filename of the segment module.
    pub canonical_filename: String,
    /// Output path prefix (empty if same directory).
    pub path: String,
    /// File extension of the output.
    pub extension: String,
    /// Parent segment name, if nested.
    pub parent: Option<String>,
    /// Whether this is an event handler, a function or a JSX prop.
    pub ctx_kind: CtxKind,
    /// The `$`-suffixed function that created this segment.
    pub ctx_name: String,
    /// Whether the segment captures variables from its enclosing scope.
    pub captures: bool,
    /// Names of captured variables.
    pub capture_names: Option<Vec<String>>,
    /// Source location `[start, end]` of the `$`-call in the source.
    pub loc: (u32, u32),
    /// Parameter names after props destructuring.
    pub param_names: Option<Vec<String>>,
}

impl Clone for SegmentAnalysis {
    fn clone(&self) -> Self {
        SegmentAnalysis {
            origin: self.origin.clone(),
            name: self.name.clone(),
            entry: self.entry.clone(),
            display_name: self.display_name.clone(),
            hash: self.hash.clone(),
            canonical_filename: self.canonical_filename.clone(),
            path: self.path.clone(),
            extension: self.extension.clone(),
            parent: self.parent.clone(),
            ctx_kind: self.ctx_kind,
            ctx_name: self.ctx_name.clone(),
            captures: self.captures,
            capture_names: self.capture_names.clone(),
            loc: (self.loc.0, self.loc.1),
            param_names: self.param_names.clone(),
        }
    }
}

/// Controls how extracted segments are output.
#[derive(Debug, Clone, Copy, PartialEq, Eq, Structural)]
pub enum EntryStrategy {
    /// Each segment becomes a separate file (the default).
    Segment,
    /// Segments stay in the same file with inlined wrappers.
    Inline,
    /// Segments are hoisted to the top of the module.
    Hoist,
    /// All segments go into a single output file.
    Single,
    /// Segments are grouped by their parent component.
    Component,
    /// The strategy is chosen by usage patterns.
    Smart,
    /// Segments are grouped by hook type.
    Hook,
}

impl Default for EntryStrategy {
    fn default() -> (r: Self)
        ensures
            r == EntryStrategy::Segment,
    {
        EntryStrategy::Segment
    }
}

/// Controls output minification.
#[derive(Debug, Clone, Copy, PartialEq, Eq, Structural)]
pub enum MinifyMode {
    /// Simplification transforms (the default).
    Simplify,
    /// No minification.
    Disabled,
}

impl Default for MinifyMode {
    fn default() -> (r: Self)
        ensures
            r == MinifyMode::Simplify,
    {
        MinifyMode::Simplify
    }
}

/// Controls the build target.
#[derive(Debug, Clone, Copy, PartialEq, Eq, Structural)]
pub enum EmitMode {
    /// Library mode (the default).
    Lib,
    /// Production mode (short `s_{hash}` symbol names).
    Prod,
    /// Development mode.
    Dev,
    /// Hot module replacement mode.
    Hmr,
    /// Unit test mode.
    Test,
}

impl Default for EmitMode {
    fn default() -> (r: Self)
        ensures
            r == EmitMode::Lib,
    {
        EmitMode::Lib
    }
}

/// The kind of context that created a segment.
#[derive(Debug, Clone, Copy, PartialEq, Eq, Structural)]
pub enum CtxKind {
    /// Event handler context (`onClick$`, ...).
    EventHandler,
    /// Function context (`$`, `component$`, `useTask$`, ...).
    Function,
    /// JSX prop expression context.
    JSXProp,
}

/// A diagnostic message from the transformation.
#[derive(Debug, Clone)]
pub struct Diagnostic {
    /// Scope identifier (always "optimizer").
    pub scope: String,
    /// The diagnostic category.
    pub category: DiagnosticCategory,
    /// Machine-readable code.
    pub code: Option<String>,
    /// File where the diagnostic originated.
    pub file: String,
    /// Human-readable message.
    pub message: String,
    /// Optional source highlights.
    pub highlights: Option<Vec<SourceLocation>>,
    /// Optional fix suggestions.
    pub suggestions: Option<Vec<String>>,
}

/// Severity of a diagnostic.
#[derive(Debug, Clone, Copy, PartialEq, Eq, Structural)]
pub enum DiagnosticCategory {
    /// A hard error.
    Error,
    /// A warning.
    Warning,
    /// An error in the source code (e.g. a syntax error).
    SourceError,
}

/// A source location for diagnostic highlighting.
#[derive(Debug, Clone, Copy, PartialEq, Eq, Structural)]
pub struct SourceLocation {
    /// Starting byte offset.
    pub lo: u32,
    /// Ending byte offset.
    pub hi: u32,
    /// Starting line (1-indexed).
    pub start_line: u32,
    /// Starting column (0-indexed).
    pub start_col: u32,
    /// Ending line (1-indexed).
    pub end_line: u32,
    /// Ending column (0-indexed).
    pub end_col: u32,
}

/// Per-file options derived from `TransformModulesOptions`.
#[derive(Debug, Clone)]
pub struct TransformCodeOptions {
    pub src_dir: String,
    pub root_dir: Option<String>,
    pub source_maps: bool,
    pub minify: MinifyMode,
    pub transpile_ts: bool,
    pub transpile_jsx: bool,
    pub preserve_filenames: bool,
    pub entry_strategy: EntryStrategy,
    pub explicit_extensions: bool,
    pub mode: EmitMode,
    pub scope: Option<String>,
    pub core_module: String,
    pub strip_exports: Vec<String>,
    pub strip_ctx_name: Vec<String>,
    pub strip_event_handlers: bool,
    pub reg_ctx_name: Vec<String>,
    pub is_server: bool,
}

/// Intermediate segment representation recorded during the transform pass.
#[derive(Debug)]
pub struct SegmentData {
    /// The display name (e.g. "test.tsx_Header_component").
    pub display_name: String,
    /// The computed hash.
    pub hash: String,
    /// The full segment name.
    pub name: String,
    /// The callee that created this segment (e.g. "$", "component$").
    pub ctx_name: String,
    /// Context kind.
    pub ctx_kind: CtxKind,
    /// Source file origin.
    pub origin: String,
    /// File extension.
    pub extension: String,
    /// Span of the `$`-call in the source.
    pub span: (u32, u32),
    /// Parent segment name, if nested.
    pub parent: Option<String>,
    /// Variables of the enclosing scope referenced inside this segment.
    pub scoped_idents: Vec<String>,
    /// Whether the segment body captures outer scope variables.
    pub captures: bool,
    /// Names of captured variables.
    pub capture_names: Vec<String>,
}

impl Clone for SegmentData {
    fn clone(&self) -> Self {
        SegmentData {
            display_name: self.display_name.clone(),
            hash: self.hash.clone(),
            name: self.name.clone(),
            ctx_name: self.ctx_name.clone(),
            ctx_kind: self.ctx_kind,
            origin: self.origin.clone(),
            extension: self.extension.clone(),
            span: (self.span.0, self.span.1),
            parent: self.parent.clone(),
            scoped_idents: self.scoped_idents.clone(),
            captures: self.captures,
            capture_names: self.capture_names.clone(),
        }
    }
}

} // verus!
