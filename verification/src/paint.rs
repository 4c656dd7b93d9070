//! Applying display colours and emphasis to text.

use colored::Colorize;
use vstd::prelude::*;

verus! {

/// `text` wrapped in the terminal escape sequences that `colored` writes
/// for a foreground colour given by name (none, if `color` is `None`) and,
/// if `bold` is set, bold weight.
pub uninterp spec fn ansi_styled(text: Seq<char>, color: Option<Seq<char>>, bold: bool) -> Seq<
    char,
>;

/// Whether `shown` is a display form of `text` in the given style: either
/// the escape-wrapped form, or, where colouring is switched off for the
/// process, the text itself.
pub open spec fn displays(
    shown: Seq<char>,
    text: Seq<char>,
    color: Option<Seq<char>>,
    bold: bool,
) -> bool {
    shown == text || shown == ansi_styled(text, color, bold)
}

/// Calls `Colorize::color` with the colour's name and formats the result
/// with `to_string`. `colored` looks the name up (an unknown one means
/// white) and writes either the text alone, when its process-wide switch
/// says not to colourise, or the text between the colour's escape sequence
/// and the reset sequence. Which of the two it is depends on the
/// environment and on `colored::control`, so only the alternative is
/// claimed; the claim supposes that the switch is not flipped from another
/// thread while the call runs.
#[verifier::external_body]
pub(crate) fn paint(text: &str, color: &str) -> (shown: String)
    ensures
        shown@ == text@ || shown@ == ansi_styled(text@, Some(color@), false),
{
    text.color(color).to_string()
}

/// Calls `Colorize::color` and `Colorize::bold` and formats the result with
/// `to_string`: as for a colour alone, with bold weight added to the escape
/// sequence.
#[verifier::external_body]
fn paint_bold(text: &str, color: &str) -> (shown: String)
    ensures
        shown@ == text@ || shown@ == ansi_styled(text@, Some(color@), true),
{
    text.color(color).bold().to_string()
}

/// Calls `Colorize::bold` and formats the result with `to_string`: the
/// text alone when colourising is switched off, else the text between the
/// escape sequence for bold weight and the reset sequence.
#[verifier::external_body]
fn embolden(text: &str) -> (shown: String)
    ensures
        shown@ == text@ || shown@ == ansi_styled(text@, None, true),
{
    text.bold().to_string()
}

/// The display forms of the three severity keywords.
#[derive(Clone, Debug, PartialEq, Eq)]
pub struct SeverityMarks {
    pub error: String,
    pub warn: String,
    pub info: String,
}

/// The mathematical content of `SeverityMarks`.
pub struct MarksView {
    pub error: Seq<char>,
    pub warn: Seq<char>,
    pub info: Seq<char>,
}

impl View for SeverityMarks {
    type V = MarksView;

    open spec fn view(&self) -> MarksView {
        MarksView { error: self.error@, warn: self.warn@, info: self.info@ }
    }
}

/// The keyword that marks an error.
pub open spec fn error_keyword() -> Seq<char> {
    "ERROR"@
}

/// The keyword that marks a warning.
pub open spec fn warn_keyword() -> Seq<char> {
    "WARN"@
}

/// The keyword that marks an informational line.
pub open spec fn info_keyword() -> Seq<char> {
    "INFO"@
}

impl MarksView {
    /// Whether these are display forms of the three keywords in their
    /// styles: `ERROR` bold red, `WARN` bold yellow, `INFO` bold without a
    /// colour.
    pub open spec fn well_styled(self) -> bool {
        &&& displays(self.error, error_keyword(), Some("red"@), true)
        &&& displays(self.warn, warn_keyword(), Some("yellow"@), true)
        &&& displays(self.info, info_keyword(), None, true)
    }
}

impl SeverityMarks {
    /// Styles the three severity keywords.
    pub fn new() -> (marks: SeverityMarks)
        ensures
            marks@.well_styled(),
    {
        SeverityMarks {
            error: paint_bold("ERROR", "red"),
            warn: paint_bold("WARN", "yellow"),
            info: embolden("INFO"),
        }
    }
}

} // verus!
