use vstd::prelude::*;

verus! {

/// Stable-enough categories for adapters such as the GUI to render errors.
/// More detailed error codes are carried by `Diagnostic::code`.
#[derive(Debug, Clone, Copy, PartialEq, Eq, Structural)]
pub enum ErrorKind {
    Io,
    ProjectNotFound,
    Config,
    Parse,
    Validation,
    ExternalTool,
    NotImplemented,
    Usage,
}

/// A structured diagnostic that can grow without forcing the GUI to parse a
/// human-readable string.
#[derive(Debug, Clone, PartialEq, Eq)]
pub struct Diagnostic {
    pub code: String,
    pub kind: ErrorKind,
    pub message: String,
    pub source: Option<String>,
    pub line: Option<usize>,
    pub column: Option<usize>,
    pub schema_path: Option<String>,
    pub record_identity: Option<String>,
    pub suggestion: Option<String>,
    /// Normative requirement IDs related to this runtime diagnostic.
    pub related_requirements: Vec<String>,
}

/// The mathematical content of a diagnostic.
pub struct DiagnosticView {
    pub code: Seq<char>,
    pub kind: ErrorKind,
    pub message: Seq<char>,
    pub source: Option<Seq<char>>,
    pub line: Option<usize>,
    pub column: Option<usize>,
    pub schema_path: Option<Seq<char>>,
    pub record_identity: Option<Seq<char>>,
    pub suggestion: Option<Seq<char>>,
    pub related_requirements: Seq<Seq<char>>,
}

impl View for Diagnostic {
    type V = DiagnosticView;

    open spec fn view(&self) -> DiagnosticView {
        DiagnosticView {
            code: self.code@,
            kind: self.kind,
            message: self.message@,
            source: self.source.deep_view(),
            line: self.line,
            column: self.column,
            schema_path: self.schema_path.deep_view(),
            record_identity: self.record_identity.deep_view(),
            suggestion: self.suggestion.deep_view(),
            related_requirements: self.related_requirements.deep_view(),
        }
    }
}

/// A diagnostic with only its code, kind and message set.
pub open spec fn fresh_diagnostic(code: Seq<char>, kind: ErrorKind, message: Seq<char>) -> DiagnosticView {
    DiagnosticView {
        code,
        kind,
        message,
        source: None,
        line: None,
        column: None,
        schema_path: None,
        record_identity: None,
        suggestion: None,
        related_requirements: Seq::empty(),
    }
}

impl Diagnostic {
    pub fn new(code: &str, kind: ErrorKind, message: &str) -> (result: Self)
        ensures
            result@ == fresh_diagnostic(code@, kind, message@),
    {
        let result = Diagnostic {
            code: code.to_owned(),
            kind,
            message: message.to_owned(),
            source: None,
            line: None,
            column: None,
            schema_path: None,
            record_identity: None,
            suggestion: None,
            related_requirements: Vec::new(),
        };
        proof {
            assert(result.related_requirements.deep_view() =~= Seq::<Seq<char>>::empty());
        }
        result
    }

    pub fn with_source(self, source: &str) -> (result: Self)
        ensures
            result@ == (DiagnosticView { source: Some(source@), ..self@ }),
    {
        let mut result = self;
        result.source = Some(source.to_owned());
        result
    }

    pub fn with_schema_path(self, schema_path: &str) -> (result: Self)
        ensures
            result@ == (DiagnosticView { schema_path: Some(schema_path@), ..self@ }),
    {
        let mut result = self;
        result.schema_path = Some(schema_path.to_owned());
        result
    }

    pub fn with_record_identity(self, identity: &str) -> (result: Self)
        ensures
            result@ == (DiagnosticView { record_identity: Some(identity@), ..self@ }),
    {
        let mut result = self;
        result.record_identity = Some(identity.to_owned());
        result
    }

    pub fn with_suggestion(self, suggestion: &str) -> (result: Self)
        ensures
            result@ == (DiagnosticView { suggestion: Some(suggestion@), ..self@ }),
    {
        let mut result = self;
        result.suggestion = Some(suggestion.to_owned());
        result
    }

    pub fn with_related_requirement(self, requirement: &str) -> (result: Self)
        ensures
            result@ == (DiagnosticView {
                related_requirements: self@.related_requirements.push(requirement@),
                ..self@
            }),
    {
        let mut result = self;
        let ghost before = result.related_requirements.deep_view();
        result.related_requirements.push(requirement.to_owned());
        proof {
            assert(result.related_requirements.deep_view() =~= before.push(requirement@));
        }
        result
    }

    /// The human-readable rendering: `[code] message`, then ` (source)` and
    /// `; suggestion: text` when those are present.
    pub fn render(&self) -> (text: String)
        ensures
            text@ == rendered_diagnostic(self@),
    {
        let mut text = String::from_str("[");
        text.append(self.code.as_str());
        text.append("] ");
        text.append(self.message.as_str());
        if let Some(source) = &self.source {
            text.append(" (");
            text.append(source.as_str());
            text.append(")");
        }
        if let Some(suggestion) = &self.suggestion {
            text.append("; suggestion: ");
            text.append(suggestion.as_str());
        }
        text
    }
}

/// The text that `Diagnostic::render` produces.
pub open spec fn rendered_diagnostic(d: DiagnosticView) -> Seq<char> {
    let head = "["@ + d.code + "] "@ + d.message;
    let with_source = match d.source {
        Some(source) => head + " ("@ + source + ")"@,
        None => head,
    };
    match d.suggestion {
        Some(suggestion) => with_source + "; suggestion: "@ + suggestion,
        None => with_source,
    }
}

/// The library's error: one structured diagnostic.
#[derive(Debug, Clone)]
pub struct MasterdataError {
    pub diagnostic: Box<Diagnostic>,
}

impl View for MasterdataError {
    type V = DiagnosticView;

    open spec fn view(&self) -> DiagnosticView {
        (*self.diagnostic)@
    }
}

impl MasterdataError {
    pub fn new(code: &str, kind: ErrorKind, message: &str) -> (result: Self)
        ensures
            result@ == fresh_diagnostic(code@, kind, message@),
    {
        MasterdataError { diagnostic: Box::new(Diagnostic::new(code, kind, message)) }
    }

    pub fn with_source(self, source: &str) -> (result: Self)
        ensures
            result@ == (DiagnosticView { source: Some(source@), ..self@ }),
    {
        MasterdataError { diagnostic: Box::new((*self.diagnostic).with_source(source)) }
    }

    pub fn with_related_requirement(self, requirement: &str) -> (result: Self)
        ensures
            result@ == (DiagnosticView {
                related_requirements: self@.related_requirements.push(requirement@),
                ..self@
            }),
    {
        MasterdataError {
            diagnostic: Box::new((*self.diagnostic).with_related_requirement(requirement)),
        }
    }

    pub fn diagnostic(&self) -> (result: &Diagnostic)
        ensures
            result@ == self@,
    {
        &self.diagnostic
    }
}

/// An I/O failure on `path`, with the path recorded as the diagnostic source.
pub fn io_error(path: &str, error: &str) -> (result: MasterdataError)
    ensures
        result@ == (DiagnosticView {
            source: Some(path@),
            ..fresh_diagnostic("E-IO-ACCESS"@, ErrorKind::Io, "could not access "@ + path@ + ": "@ + error@)
        }),
{
    let mut message = String::from_str("could not access ");
    message.append(path);
    message.append(": ");
    message.append(error);
    MasterdataError::new("E-IO-ACCESS", ErrorKind::Io, message.as_str()).with_source(path)
}

} // verus!
