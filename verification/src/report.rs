//! The diagnostics that reconciliation collects about references it had to
//! give up on. None of them stops the run.
use vstd::prelude::*;

verus! {

/// Why a tag reference or a record was left out.
#[derive(Debug, Clone, PartialEq, Eq)]
pub enum Diagnostic {
    /// A meme names a tag that has no name to resolve to.
    UnknownTag { id: String },
    /// An image reference does not end in `jpg` or `jpeg`.
    UnsupportedExtension { file_name: String, extension: String },
    /// An image reference names a file that is not in the image directory.
    FileNotFound { file_name: String },
}

/// What a [`Diagnostic`] holds.
pub enum DiagnosticView {
    UnknownTag { id: Seq<char> },
    UnsupportedExtension { file_name: Seq<char>, extension: Seq<char> },
    FileNotFound { file_name: Seq<char> },
}

impl View for Diagnostic {
    type V = DiagnosticView;

    open spec fn view(&self) -> DiagnosticView {
        match self {
            Diagnostic::UnknownTag { id } => DiagnosticView::UnknownTag { id: id@ },
            Diagnostic::UnsupportedExtension { file_name, extension } => {
                DiagnosticView::UnsupportedExtension {
                    file_name: file_name@,
                    extension: extension@,
                }
            },
            Diagnostic::FileNotFound { file_name } => DiagnosticView::FileNotFound {
                file_name: file_name@,
            },
        }
    }
}

/// What each diagnostic of a list holds, in order.
pub open spec fn diagnostic_views(list: Seq<Diagnostic>) -> Seq<DiagnosticView> {
    list.map_values(|d: Diagnostic| d@)
}

/// The line that reports a diagnostic.
pub open spec fn message_text(d: DiagnosticView) -> Seq<char> {
    match d {
        DiagnosticView::UnknownTag { id } => "No matching tag for id "@ + id,
        DiagnosticView::UnsupportedExtension { file_name, extension } => "Файл "@ + file_name
            + " имеет неподдерживаемое расширение – "@ + extension,
        DiagnosticView::FileNotFound { file_name } => "Файл "@ + file_name
            + " не найден в директории"@,
    }
}

impl Diagnostic {
    /// The line that reports this diagnostic.
    pub fn message(&self) -> (line: String)
        ensures
            line@ == message_text(self@),
    {
        let mut line = String::new();
        match self {
            Diagnostic::UnknownTag { id } => {
                line.append("No matching tag for id ");
                line.append(id.as_str());
            },
            Diagnostic::UnsupportedExtension { file_name, extension } => {
                line.append("Файл ");
                line.append(file_name.as_str());
                line.append(" имеет неподдерживаемое расширение – ");
                line.append(extension.as_str());
            },
            Diagnostic::FileNotFound { file_name } => {
                line.append("Файл ");
                line.append(file_name.as_str());
                line.append(" не найден в директории");
            },
        }
        line
    }
}

/// The lines that report the diagnostics, in order, each closed by a line
/// feed.
pub open spec fn log_lines(reports: Seq<DiagnosticView>) -> Seq<char>
    decreases reports.len(),
{
    if reports.len() == 0 {
        Seq::empty()
    } else {
        log_lines(reports.drop_last()) + message_text(reports.last()) + seq!['\n']
    }
}

/// The text of the diagnostics log: one line for each diagnostic, in
/// order. Without diagnostics there is no log.
pub fn log_text(errors: &Vec<Diagnostic>) -> (text: Option<String>)
    ensures
        errors@.len() == 0 <==> text is None,
        text matches Some(text) ==> text@ == log_lines(diagnostic_views(errors@)),
{
    if errors.len() == 0 {
        return None;
    }
    let mut text = String::new();
    let mut i: usize = 0;
    while i < errors.len()
        invariant
            i <= errors.len(),
            text@ == log_lines(diagnostic_views(errors@).take(i as int)),
        decreases errors.len() - i,
    {
        assert(diagnostic_views(errors@).take(i + 1).drop_last() == diagnostic_views(errors@).take(
            i as int,
        ));
        text.append(errors[i].message().as_str());
        text.push('\n');
        i += 1;
    }
    assert(diagnostic_views(errors@).take(errors@.len() as int) == diagnostic_views(errors@));
    Some(text)
}

} // verus!
