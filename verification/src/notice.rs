//! What the loader tells the operator about a file while loading it.

use vstd::prelude::*;
use vstd::string::StringExecFns;

verus! {

/// A message of the loader.
#[derive(Clone, Debug, PartialEq, Eq)]
pub enum Notice {
    /// A pattern was supplied, but no line of the file matched it.
    NoIdFound,
    /// The identifier `id` was detected in the file named `file_name`.
    IdFound { id: String, file_name: String },
    /// `line` carries no valid timestamp and was left out.
    LineDropped { line: String },
}

/// The mathematical content of a `Notice`.
pub enum NoticeView {
    NoIdFound,
    IdFound { id: Seq<char>, file_name: Seq<char> },
    LineDropped { line: Seq<char> },
}

impl View for Notice {
    type V = NoticeView;

    open spec fn view(&self) -> NoticeView {
        match self {
            Notice::NoIdFound => NoticeView::NoIdFound,
            Notice::IdFound { id, file_name } => NoticeView::IdFound {
                id: id@,
                file_name: file_name@,
            },
            Notice::LineDropped { line } => NoticeView::LineDropped { line: line@ },
        }
    }
}

/// The views of `notices`, in order.
pub open spec fn notice_views(notices: Seq<Notice>) -> Seq<NoticeView> {
    notices.map_values(|notice: Notice| notice@)
}

impl NoticeView {
    /// The text of the message.
    pub open spec fn message(self) -> Seq<char> {
        match self {
            NoticeView::NoIdFound => "Regex provided but no capture data found"@,
            NoticeView::IdFound { id, file_name } => "Found id "@ + id + " for file "@ + file_name,
            NoticeView::LineDropped { line } => "WARN:Could not find valid timestamp in line:"@
                + line,
        }
    }
}

impl Notice {
    /// The text of the message, as it is shown to the operator.
    pub fn message(&self) -> (text: String)
        ensures
            text@ == self@.message(),
    {
        match self {
            Notice::NoIdFound => String::from_str("Regex provided but no capture data found"),
            Notice::IdFound { id, file_name } => {
                let mut text = String::from_str("Found id ");
                text.append(id.as_str());
                text.append(" for file ");
                text.append(file_name.as_str());
                text
            },
            Notice::LineDropped { line } => {
                let mut text = String::from_str("WARN:Could not find valid timestamp in line:");
                text.append(line.as_str());
                text
            },
        }
    }
}

} // verus!
