//! What is logged of a fix.

use vstd::prelude::*;
use vstd::string::*;
use crate::text::opt_text;
use super::{ActionView, FixAction, FixLogLevel};

verus! {

broadcast use vstd::string::group_string_axioms;

/// The level of a log line.
#[derive(Debug, Clone, Copy, PartialEq, Eq, Structural)]
pub enum LogLevel {
    Trace,
    Debug,
    Info,
    Warn,
    Error,
}

/// One line of the log, with its fields.
#[derive(Debug, PartialEq, Eq)]
pub struct LogLine {
    pub level: LogLevel,
    pub fix_name: String,
    pub original: Option<String>,
    pub fixed: Option<String>,
    pub attempted: Option<String>,
    pub message: String,
}

/// A [`LogLine`], as contracts see it.
pub struct LineView {
    pub level: LogLevel,
    pub fix_name: Seq<char>,
    pub original: Option<Seq<char>>,
    pub fixed: Option<Seq<char>>,
    pub attempted: Option<Seq<char>>,
    pub message: Seq<char>,
}

impl View for LogLine {
    type V = LineView;

    open spec fn view(&self) -> LineView {
        LineView {
            level: self.level,
            fix_name: self.fix_name@,
            original: opt_text(self.original),
            fixed: opt_text(self.fixed),
            attempted: opt_text(self.attempted),
            message: self.message@,
        }
    }
}

/// The views of a list of lines.
pub open spec fn line_views(lines: Seq<LogLine>) -> Seq<LineView> {
    Seq::new(lines.len(), |i: int| lines[i]@)
}

/// A line that names only the original.
pub open spec fn found_line(level: LogLevel, fix_name: Seq<char>, original: Seq<char>, message: Seq<char>) -> LineView {
    LineView { level, fix_name, original: Some(original), fixed: None, attempted: None, message }
}

/// A line that names the original and what it became.
pub open spec fn fixed_line(
    level: LogLevel,
    fix_name: Seq<char>,
    original: Seq<char>,
    fixed: Seq<char>,
    message: Seq<char>,
) -> LineView {
    LineView { level, fix_name, original: Some(original), fixed: Some(fixed), attempted: None, message }
}

/// What is logged of an action. A repair is logged at the level that the fix
/// asks for; a failure is always logged as a warning and an error.
pub open spec fn lines_of(fix_name: Seq<char>, action: ActionView, level: FixLogLevel) -> Seq<LineView> {
    match action {
        ActionView::NotApplicable => seq![
            LineView {
                level: LogLevel::Trace,
                fix_name,
                original: None,
                fixed: None,
                attempted: None,
                message: "Fix did not apply"@,
            },
        ],
        ActionView::Fixed { original, fixed } => match level {
            FixLogLevel::Trace => seq![
                fixed_line(LogLevel::Trace, fix_name, original, fixed, "Detected and fixed malformed content"@),
            ],
            FixLogLevel::Debug => seq![
                found_line(LogLevel::Debug, fix_name, original, "Detected malformed content (fixed)"@),
                fixed_line(LogLevel::Trace, fix_name, original, fixed, "Successfully fixed malformed content"@),
            ],
            FixLogLevel::Info => seq![
                found_line(LogLevel::Warn, fix_name, original, "Detected malformed content"@),
                fixed_line(LogLevel::Info, fix_name, original, fixed, "Successfully fixed malformed content"@),
            ],
            FixLogLevel::Warn => seq![
                found_line(LogLevel::Warn, fix_name, original, "Detected malformed content"@),
                fixed_line(LogLevel::Warn, fix_name, original, fixed, "Successfully fixed malformed content"@),
            ],
        },
        ActionView::Failed { original, attempted } => seq![
            found_line(LogLevel::Warn, fix_name, original, "Detected malformed content"@),
            LineView {
                level: LogLevel::Error,
                fix_name,
                original: Some(original),
                fixed: None,
                attempted: Some(attempted),
                message: "Failed to fix malformed content"@,
            },
        ],
    }
}

fn found(level: LogLevel, fix_name: &str, original: &String, message: &str) -> (line: LogLine)
    ensures
        line@ == found_line(level, fix_name@, original@, message@),
{
    LogLine {
        level,
        fix_name: fix_name.to_owned(),
        original: Some(original.clone()),
        fixed: None,
        attempted: None,
        message: message.to_owned(),
    }
}

fn repaired(level: LogLevel, fix_name: &str, original: &String, fixed: &String, message: &str) -> (line: LogLine)
    ensures
        line@ == fixed_line(level, fix_name@, original@, fixed@, message@),
{
    LogLine {
        level,
        fix_name: fix_name.to_owned(),
        original: Some(original.clone()),
        fixed: Some(fixed.clone()),
        attempted: None,
        message: message.to_owned(),
    }
}

/// What is logged of an action.
pub fn log_fix_action(fix_name: &str, action: &FixAction, log_level: FixLogLevel) -> (lines: Vec<LogLine>)
    ensures
        line_views(lines@) == lines_of(fix_name@, action@, log_level),
{
    let mut lines: Vec<LogLine> = Vec::new();
    match action {
        FixAction::NotApplicable => {
            lines.push(
                LogLine {
                    level: LogLevel::Trace,
                    fix_name: fix_name.to_owned(),
                    original: None,
                    fixed: None,
                    attempted: None,
                    message: "Fix did not apply".to_owned(),
                },
            );
        },
        FixAction::Fixed { original_snippet, fixed_snippet } => match log_level {
            FixLogLevel::Trace => {
                lines.push(
                    repaired(
                        LogLevel::Trace,
                        fix_name,
                        original_snippet,
                        fixed_snippet,
                        "Detected and fixed malformed content",
                    ),
                );
            },
            FixLogLevel::Debug => {
                lines.push(found(LogLevel::Debug, fix_name, original_snippet, "Detected malformed content (fixed)"));
                lines.push(
                    repaired(
                        LogLevel::Trace,
                        fix_name,
                        original_snippet,
                        fixed_snippet,
                        "Successfully fixed malformed content",
                    ),
                );
            },
            FixLogLevel::Info => {
                lines.push(found(LogLevel::Warn, fix_name, original_snippet, "Detected malformed content"));
                lines.push(
                    repaired(
                        LogLevel::Info,
                        fix_name,
                        original_snippet,
                        fixed_snippet,
                        "Successfully fixed malformed content",
                    ),
                );
            },
            FixLogLevel::Warn => {
                lines.push(found(LogLevel::Warn, fix_name, original_snippet, "Detected malformed content"));
                lines.push(
                    repaired(
                        LogLevel::Warn,
                        fix_name,
                        original_snippet,
                        fixed_snippet,
                        "Successfully fixed malformed content",
                    ),
                );
            },
        },
        FixAction::Failed { original_snippet, attempted_fix } => {
            lines.push(found(LogLevel::Warn, fix_name, original_snippet, "Detected malformed content"));
            lines.push(
                LogLine {
                    level: LogLevel::Error,
                    fix_name: fix_name.to_owned(),
                    original: Some(original_snippet.clone()),
                    fixed: None,
                    attempted: Some(attempted_fix.clone()),
                    message: "Failed to fix malformed content".to_owned(),
                },
            );
        },
    }
    proof {
        assert(line_views(lines@) =~= lines_of(fix_name@, action@, log_level));
    }
    lines
}

/// A failure is never logged below a warning, whatever level the fix asks for.
pub proof fn law_failures_are_loud(fix_name: Seq<char>, original: Seq<char>, attempted: Seq<char>, level: FixLogLevel)
    ensures
        ({
            let lines = lines_of(fix_name, ActionView::Failed { original, attempted }, level);
            &&& lines.len() == 2
            &&& lines[0].level == LogLevel::Warn
            &&& lines[1].level == LogLevel::Error
            &&& lines[1].attempted == Some(attempted)
        }),
{
}

} // verus!
