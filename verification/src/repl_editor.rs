//! Which parts of a text are run in a kernel, and in which session.

use vstd::prelude::*;
use crate::collections::VecMap;
use crate::rope::position::Point;
use crate::text::{
    blank, byte_len, copy_text, has_prefix, is_blank, lowercase, starts_with, str_eq, text_len,
    to_lowercase,
};

verus! {

/// A line of a buffer, and the languages at its start and at its end.
#[derive(Debug)]
pub struct Line {
    pub text: String,
    pub start_language: Option<u64>,
    pub end_language: Option<u64>,
}

/// The language of a buffer.
#[derive(Debug)]
pub struct BufferLanguage {
    pub name: String,
    /// What a comment that ends with its line starts with.
    pub line_comment_prefixes: Vec<String>,
}

/// A part of a text in another language.
#[derive(Debug)]
pub struct Injection {
    pub start: Point,
    pub end: Point,
    pub language: String,
}

/// A text to be run in parts.
#[derive(Debug)]
pub struct Buffer {
    pub lines: Vec<Line>,
    pub language: Option<BufferLanguage>,
}

/// From one place of a text to another.
#[derive(Copy, Clone, Debug, PartialEq, Eq, Structural)]
pub struct PointRange {
    pub start: Point,
    pub end: Point,
}

/// The last row from one row to another that is not blank, or the first one.
pub open spec fn last_row_with_text(lines: Seq<Line>, start_row: int, end_row: int) -> int
    decreases end_row - start_row,
{
    if end_row > start_row && is_blank(lines[end_row].text@) {
        last_row_with_text(lines, start_row, end_row - 1)
    } else {
        end_row
    }
}

/// The lines of a cell, without the blank ones at its end.
pub open spec fn cell(lines: Seq<Line>, start_row: int, end_row: int) -> PointRange {
    let last: int = last_row_with_text(lines, start_row, end_row);
    PointRange {
        start: Point { row: start_row as u32, column: 0 },
        end: Point { row: last as u32, column: byte_len(lines[last].text@) as u32 },
    }
}

/// Whether a line starts a cell.
pub open spec fn starts_cell(line: Seq<char>, prefixes: Seq<String>) -> bool {
    exists|i: int|
        0 <= i < prefixes.len() && starts_with(line, (#[trigger] prefixes[i])@ + seq!['%', '%'])
}

/// The row at which the cell of a row starts, if there is one.
pub open spec fn cell_start(lines: Seq<Line>, prefixes: Seq<String>, row: int) -> Option<int>
    decreases row + 1,
{
    if row < 0 {
        None
    } else if starts_cell(lines[row].text@, prefixes) {
        Some(row)
    } else {
        cell_start(lines, prefixes, row - 1)
    }
}

/// The cells from one that starts at a row on, up to the one that holds the last row of
/// a selection, and where the next one starts.
pub open spec fn cells_from(
    lines: Seq<Line>,
    prefixes: Seq<String>,
    start_row: int,
    row: int,
    end_row: int,
) -> (Seq<PointRange>, Option<Point>)
    decreases lines.len() - row,
{
    if row >= lines.len() {
        (seq![cell(lines, start_row, lines.len() - 1)], None)
    } else if starts_cell(lines[row].text@, prefixes) {
        if row <= end_row {
            let (rest, next) = cells_from(lines, prefixes, row, row + 1, end_row);
            (seq![cell(lines, start_row, row - 1)] + rest, next)
        } else {
            (
                seq![cell(lines, start_row, row - 1)],
                Some(Point { row: row as u32, column: 0 }),
            )
        }
    } else {
        cells_from(lines, prefixes, start_row, row + 1, end_row)
    }
}

/// The cells of a selection, and where the next cell starts.
pub open spec fn cells(buffer: Buffer, start_row: int, end_row: int) -> (
    Seq<PointRange>,
    Option<Point>,
) {
    match buffer.language {
        None => (Seq::empty(), None),
        Some(language) => {
            let prefixes = language.line_comment_prefixes@;
            match cell_start(buffer.lines@, prefixes, start_row) {
                None => (Seq::empty(), None),
                Some(start) => cells_from(
                    buffer.lines@,
                    prefixes,
                    start,
                    start_row + 1,
                    end_row,
                ),
            }
        },
    }
}

impl Buffer {
    /// There is a line, and rows and columns can be counted.
    pub open spec fn wf(&self) -> bool {
        0 < self.lines@.len() <= u32::MAX && forall|i: int|
            0 <= i < self.lines@.len() ==> byte_len((#[trigger] self.lines@[i]).text@) <= u32::MAX
    }

    /// The lines from one row to another, without the blank ones at the end.
    pub fn cell_range(&self, start_row: u32, end_row: u32) -> (r: PointRange)
        requires
            self.wf(),
            end_row < self.lines@.len(),
        ensures
            r == cell(self.lines@, start_row as int, end_row as int),
    {
        let mut row: u32 = end_row;
        while row > start_row && blank(self.lines[row as usize].text.as_str())
            invariant
                row <= end_row < self.lines@.len(),
                last_row_with_text(self.lines@, start_row as int, row as int)
                    == last_row_with_text(self.lines@, start_row as int, end_row as int),
            decreases row,
        {
            row = row - 1;
        }
        let column: u32 = text_len(self.lines[row as usize].text.as_str()) as u32;
        PointRange { start: Point::new(start_row, 0), end: Point::new(row, column) }
    }

    fn is_cell_start(&self, row: u32, prefixes: &Vec<String>) -> (r: bool)
        requires
            row < self.lines@.len(),
        ensures
            r == starts_cell(self.lines@[row as int].text@, prefixes@),
    {
        let mut i: usize = 0;
        while i < prefixes.len()
            invariant
                i <= prefixes@.len(),
                row < self.lines@.len(),
                forall|k: int|
                    0 <= k < i ==> !starts_with(
                        self.lines@[row as int].text@,
                        (#[trigger] prefixes@[k])@ + seq!['%', '%'],
                    ),
            decreases prefixes.len() - i,
        {
            let mut prefix = copy_text(prefixes[i].as_str());
            prefix.push('%');
            prefix.push('%');
            assert(prefix@ =~= prefixes@[i as int]@ + seq!['%', '%']);
            if has_prefix(self.lines[row as usize].text.as_str(), prefix.as_str()) {
                return true;
            }
            i = i + 1;
        }
        false
    }

    /// The cells of a selection, and where the next cell starts.
    pub fn jupytext_cells(&self, start_row: u32, end_row: u32) -> (r: (
        Vec<PointRange>,
        Option<Point>,
    ))
        requires
            self.wf(),
            start_row < self.lines@.len(),
        ensures
            (r.0@, r.1) == cells(*self, start_row as int, end_row as int),
    {
        let mut found: Vec<PointRange> = Vec::new();
        let prefixes = match &self.language {
            Some(language) => &language.line_comment_prefixes,
            None => {
                return (found, None);
            },
        };
        let ghost goal = cells(*self, start_row as int, end_row as int);
        let mut start: u32 = start_row;
        let mut looking: bool = true;
        while looking
            invariant
                self.wf(),
                start <= start_row < self.lines@.len(),
                looking ==> cell_start(self.lines@, prefixes@, start as int) == cell_start(
                    self.lines@,
                    prefixes@,
                    start_row as int,
                ),
                !looking ==> cell_start(self.lines@, prefixes@, start_row as int) == Some(
                    start as int,
                ),
                self.language is Some,
                prefixes == self.language->0.line_comment_prefixes,
                found@.len() == 0,
                goal == cells(*self, start_row as int, end_row as int),
            decreases
                start,
                if looking {
                    1int
                } else {
                    0int
                },
        {
            if self.is_cell_start(start, prefixes) {
                looking = false;
            } else if start > 0 {
                start = start - 1;
            } else {
                assert(cell_start(self.lines@, prefixes@, -1) is None);
                assert(found@ =~= Seq::empty());
                return (found, None);
            }
        }
        let mut row: u32 = start_row + 1;
        assert(found@ + cells_from(
            self.lines@,
            prefixes@,
            start as int,
            row as int,
            end_row as int,
        ).0 =~= goal.0);
        while (row as usize) < self.lines.len()
            invariant
                self.wf(),
                start < row <= self.lines@.len(),
                goal == cells(*self, start_row as int, end_row as int),
                ({
                    let (rest, next) = cells_from(
                        self.lines@,
                        prefixes@,
                        start as int,
                        row as int,
                        end_row as int,
                    );
                    goal == (found@ + rest, next)
                }),
            decreases self.lines.len() - row,
        {
            if self.is_cell_start(row, prefixes) {
                let ghost before = found@;
                found.push(self.cell_range(start, row - 1));
                if row <= end_row {
                    proof {
                        let (rest, next) = cells_from(
                            self.lines@,
                            prefixes@,
                            row as int,
                            row + 1,
                            end_row as int,
                        );
                        assert(found@ + rest =~= before + (seq![
                            cell(self.lines@, start as int, row - 1),
                        ] + rest));
                    }
                    start = row;
                } else {
                    assert(found@ =~= before + seq![cell(self.lines@, start as int, row - 1)]);
                    return (found, Some(Point::new(row, 0)));
                }
            }
            row = row + 1;
        }
        let ghost before = found@;
        found.push(self.cell_range(start, row - 1));
        assert(found@ =~= before + seq![cell(self.lines@, start as int, self.lines@.len() - 1)]);
        (found, None)
    }

    /// The parts of a text to be run for a selection, and where the next one starts.
    pub fn runnable_ranges(
        &self,
        start_row: u32,
        end_row: u32,
        injections: &Vec<Injection>,
        kernel_languages: &Vec<String>,
    ) -> (r: (Vec<PointRange>, Option<Point>))
        requires
            self.wf(),
            start_row < self.lines@.len(),
            end_row < self.lines@.len(),
        ensures
            (r.0@, r.1) == runnable(
                *self,
                start_row as int,
                end_row as int,
                injections@,
                kernel_languages@,
            ),
    {
        if let Some(language) = &self.language {
            if str_eq(language.name.as_str(), "Markdown") {
                return (markdown_code_blocks(injections, kernel_languages), None);
            }
        }
        let (found, next) = self.jupytext_cells(start_row, end_row);
        if found.len() > 0 {
            return (found, next);
        }
        let range = self.cell_range(start_row, end_row);
        let mut ranges: Vec<PointRange> = Vec::new();
        proof {
            lemma_last_row(self.lines@, start_row as int, end_row as int);
        }
        let start_language: Option<u64> = self.lines[start_row as usize].start_language;
        let end_language: Option<u64> = self.lines[range.end.row as usize].end_language;
        match (start_language, end_language) {
            (Some(start), Some(end)) => {
                if start == end {
                    ranges.push(range);
                    assert(ranges@ =~= seq![range]);
                }
            },
            _ => {},
        }
        assert(start_language is None || end_language is None || start_language->0
            != end_language->0 ==> ranges@ =~= Seq::empty());
        (ranges, None)
    }
}

proof fn lemma_last_row(lines: Seq<Line>, start_row: int, end_row: int)
    requires
        0 <= start_row,
        0 <= end_row < lines.len(),
    ensures
        0 <= last_row_with_text(lines, start_row, end_row) <= end_row,
        start_row <= end_row ==> start_row <= last_row_with_text(lines, start_row, end_row),
    decreases end_row - start_row,
{
    if end_row > start_row && is_blank(lines[end_row].text@) {
        lemma_last_row(lines, start_row, end_row - 1);
    }
}

/// The parts of a text to be run for a selection, and where the next one starts: in
/// Markdown the code blocks, elsewhere the cells, and where there is no cell the
/// selection, if it starts and ends in one language.
pub open spec fn runnable(
    buffer: Buffer,
    start_row: int,
    end_row: int,
    injections: Seq<Injection>,
    kernel_languages: Seq<String>,
) -> (Seq<PointRange>, Option<Point>) {
    if buffer.language is Some && buffer.language->0.name@ == "Markdown"@ {
        (supported_blocks(injections, kernel_languages), None)
    } else if cells(buffer, start_row, end_row).0.len() > 0 {
        cells(buffer, start_row, end_row)
    } else {
        let range = cell(buffer.lines@, start_row, end_row);
        let start = buffer.lines@[start_row].start_language;
        let end = buffer.lines@[last_row_with_text(
            buffer.lines@,
            start_row,
            end_row,
        )].end_language;
        if start is Some && end is Some && start->0 == end->0 {
            (seq![range], None)
        } else {
            (Seq::empty(), None)
        }
    }
}

/// Whether there is a kernel for a language, whatever the case of its letters.
pub open spec fn is_supported(language: Seq<char>, kernel_languages: Seq<String>) -> bool {
    exists|i: int|
        0 <= i < kernel_languages.len() && lowercase((#[trigger] kernel_languages[i])@)
            == lowercase(language)
}

/// Whether there is a kernel for a language.
pub fn language_supported(language: &str, kernel_languages: &Vec<String>) -> (r: bool)
    ensures
        r == is_supported(language@, kernel_languages@),
{
    let wanted = to_lowercase(language);
    let mut i: usize = 0;
    while i < kernel_languages.len()
        invariant
            i <= kernel_languages@.len(),
            wanted@ == lowercase(language@),
            forall|k: int|
                0 <= k < i ==> lowercase((#[trigger] kernel_languages@[k])@) != lowercase(
                    language@,
                ),
        decreases kernel_languages.len() - i,
    {
        let there = to_lowercase(kernel_languages[i].as_str());
        if same_language(there.as_str(), wanted.as_str()) {
            return true;
        }
        i = i + 1;
    }
    false
}

/// Whether two languages that are written in lower case are the same.
pub fn same_language(a: &str, b: &str) -> (r: bool)
    ensures
        r == (a@ == b@),
{
    str_eq(a, b)
}

/// The code blocks for which there is a kernel.
pub open spec fn supported_blocks(injections: Seq<Injection>, kernel_languages: Seq<String>) -> Seq<
    PointRange,
>
    decreases injections.len(),
{
    if injections.len() == 0 {
        Seq::empty()
    } else {
        let before = supported_blocks(injections.drop_last(), kernel_languages);
        let last = injections.last();
        if is_supported(last.language@, kernel_languages) {
            before.push(PointRange { start: last.start, end: last.end })
        } else {
            before
        }
    }
}

/// The code blocks for which there is a kernel.
pub fn markdown_code_blocks(injections: &Vec<Injection>, kernel_languages: &Vec<String>) -> (r: Vec<
    PointRange,
>)
    ensures
        r@ == supported_blocks(injections@, kernel_languages@),
{
    let mut r: Vec<PointRange> = Vec::new();
    let mut i: usize = 0;
    assert(r@ =~= supported_blocks(injections@.take(0), kernel_languages@));
    while i < injections.len()
        invariant
            i <= injections@.len(),
            r@ == supported_blocks(injections@.take(i as int), kernel_languages@),
        decreases injections.len() - i,
    {
        proof {
            let next = injections@.take(i + 1);
            assert(next.drop_last() =~= injections@.take(i as int));
            assert(next.last() == injections@[i as int]);
        }
        if language_supported(injections[i].language.as_str(), kernel_languages) {
            r.push(PointRange { start: injections[i].start, end: injections[i].end });
        }
        i = i + 1;
    }
    assert(injections@.take(i as int) =~= injections@);
    r
}

/// What can be done in an editor.
#[derive(Debug)]
pub enum SessionSupport {
    ActiveSession(u64),
    Inactive(u64),
    RequiresSetup(String),
    Unsupported,
}

/// The sessions of editors.
#[derive(Debug)]
pub struct ReplStore {
    pub enabled: bool,
    /// The session of each editor.
    pub sessions: VecMap<u64, u64>,
    /// The kernel that was chosen for each worktree.
    pub selected_kernels: VecMap<u64, u64>,
}

/// A kernel was chosen for an editor that is in no worktree.
#[derive(Copy, Clone, Debug, PartialEq, Eq, Structural)]
pub struct NotInWorktree;

/// A part of a text that is run.
#[derive(Copy, Clone, Debug, PartialEq, Eq, Structural)]
pub struct Execution {
    pub session: u64,
    /// The kernel with which the session is to be started, if it is new.
    pub start_with: Option<u64>,
    pub range: PointRange,
    pub next_cursor: Option<Point>,
    pub move_down: bool,
}

/// Why not everything was run.
#[derive(Debug)]
pub enum RunError {
    EditorDropped,
    /// There is no kernel for a language.
    NoKernel(String),
}

/// Why not everything was run.
pub enum RunFailure {
    EditorDropped,
    NoKernel(Seq<char>),
}

/// What an error is, if there is one.
pub open spec fn failure_of(error: Option<RunError>) -> Option<RunFailure> {
    match error {
        Some(RunError::EditorDropped) => Some(RunFailure::EditorDropped),
        Some(RunError::NoKernel(language)) => Some(RunFailure::NoKernel(language@)),
        None => None,
    }
}

impl RunError {
    /// What is told of it.
    pub fn text(&self) -> (r: String)
        ensures
            r@ == match *self {
                RunError::EditorDropped => "editor was dropped"@,
                RunError::NoKernel(language) => "No kernel found for language: "@ + language@,
            },
    {
        match self {
            RunError::EditorDropped => copy_text("editor was dropped"),
            RunError::NoKernel(language) => {
                let mut text = copy_text("No kernel found for language: ");
                text.push_str(language.as_str());
                text
            },
        }
    }
}

/// What is run: for each part with a language and a kernel an execution, up to the
/// first part whose language has no kernel. The first execution starts the session if
/// there is none.
pub open spec fn executions(
    session: u64,
    started: bool,
    ranges: Seq<PointRange>,
    languages: Seq<Option<String>>,
    kernels: Seq<Option<u64>>,
    next_cursor: Option<Point>,
    move_down: bool,
) -> (Seq<Execution>, Option<RunFailure>)
    decreases ranges.len(),
{
    if ranges.len() == 0 {
        (Seq::empty(), None)
    } else if languages.first() is None {
        executions(
            session,
            started,
            ranges.drop_first(),
            languages.drop_first(),
            kernels.drop_first(),
            next_cursor,
            move_down,
        )
    } else {
        match kernels.first() {
            None => (Seq::empty(), Some(RunFailure::NoKernel(languages.first()->0@))),
            Some(kernel) => {
                let (rest, failure) = executions(
                    session,
                    true,
                    ranges.drop_first(),
                    languages.drop_first(),
                    kernels.drop_first(),
                    next_cursor,
                    move_down,
                );
                let first = Execution {
                    session,
                    start_with: if started {
                        None
                    } else {
                        Some(kernel)
                    },
                    range: ranges.first(),
                    next_cursor,
                    move_down,
                };
                (seq![first] + rest, failure)
            },
        }
    }
}

impl ReplStore {
    pub open spec fn wf(&self) -> bool {
        self.sessions.wf() && self.selected_kernels.wf()
    }

    pub fn get_session(&self, editor: u64) -> (r: Option<u64>)
        ensures
            r == (if self.sessions@.contains_key(editor) {
                Some(self.sessions@[editor])
            } else {
                None
            }),
    {
        match self.sessions.get(&editor) {
            Some(session) => Some(*session),
            None => None,
        }
    }

    /// Chooses a kernel for the worktree of an editor and gives the editor a new session.
    /// The one before, if there was one, is to be cleared and shut down.
    pub fn assign_kernelspec(
        &mut self,
        kernel: u64,
        editor: u64,
        worktree: Option<u64>,
        new_session: u64,
    ) -> (r: Result<Option<u64>, NotInWorktree>)
        requires
            old(self).wf(),
        ensures
            final(self).wf(),
            final(self).enabled == old(self).enabled,
            match (old(self).enabled, worktree) {
                (false, _) => r == Ok::<Option<u64>, NotInWorktree>(None) && *final(self)
                    == *old(self),
                (true, None) => r == Err::<Option<u64>, NotInWorktree>(NotInWorktree)
                    && *final(self) == *old(self),
                (true, Some(worktree)) => r == Ok::<Option<u64>, NotInWorktree>(
                    (if old(self).sessions@.contains_key(editor) {
                        Some(old(self).sessions@[editor])
                    } else {
                        None
                    }),
                ) && final(self).sessions@ == old(self).sessions@.insert(editor, new_session)
                    && final(self).selected_kernels@ == old(self).selected_kernels@.insert(
                    worktree,
                    kernel,
                ),
            },
    {
        if !self.enabled {
            return Ok(None);
        }
        match worktree {
            None => Err(NotInWorktree),
            Some(worktree) => {
                let _ = self.selected_kernels.insert(worktree, kernel);
                Ok(self.sessions.insert(editor, new_session))
            },
        }
    }

    /// Notes that the session of an editor was shut down.
    pub fn remove_session(&mut self, editor: u64)
        requires
            old(self).wf(),
        ensures
            final(self).wf(),
            final(self).sessions@ == old(self).sessions@.remove(editor),
            final(self).selected_kernels == old(self).selected_kernels,
            final(self).enabled == old(self).enabled,
    {
        let _ = self.sessions.remove(&editor);
    }

    /// The session to clear, interrupt, shut down or restart for an editor.
    pub fn session_for_action(&self, jupyter_enabled: bool, editor: u64) -> (r: Option<u64>)
        ensures
            r == (if jupyter_enabled && self.sessions@.contains_key(editor) {
                Some(self.sessions@[editor])
            } else {
                None
            }),
    {
        if jupyter_enabled {
            self.get_session(editor)
        } else {
            None
        }
    }

    /// What can be done in an editor, given the language at its selection, its worktree
    /// and the kernel for both.
    pub fn session(
        &self,
        editor: u64,
        language: Option<&str>,
        worktree: Option<u64>,
        kernel: Option<u64>,
        kernel_languages: &Vec<String>,
    ) -> (r: SessionSupport)
        ensures
            if self.sessions@.contains_key(editor) {
                r == SessionSupport::ActiveSession(self.sessions@[editor])
            } else if language is None || worktree is None {
                r == SessionSupport::Unsupported
            } else if kernel is Some {
                r == SessionSupport::Inactive(kernel->0)
            } else if is_supported(language->0@, kernel_languages@) {
                r matches SessionSupport::RequiresSetup(name) && name@ == language->0@
            } else {
                r == SessionSupport::Unsupported
            },
    {
        if let Some(session) = self.get_session(editor) {
            return SessionSupport::ActiveSession(session);
        }
        match (language, worktree) {
            (Some(language), Some(_)) => match kernel {
                Some(kernel) => SessionSupport::Inactive(kernel),
                None => {
                    if language_supported(language, kernel_languages) {
                        SessionSupport::RequiresSetup(copy_text(language))
                    } else {
                        SessionSupport::Unsupported
                    }
                },
            },
            _ => SessionSupport::Unsupported,
        }
    }

    /// Plans what is run for some parts of the text of an editor, each with its language
    /// and with the kernel for it, where they are known. Nothing is run in an editor that
    /// does not show a single file of the project. The result also tells why not
    /// everything was run.
    pub fn run(
        &mut self,
        editor: Option<u64>,
        shows_project_file: bool,
        new_session: u64,
        ranges: &Vec<PointRange>,
        languages: &Vec<Option<String>>,
        kernels: &Vec<Option<u64>>,
        next_cursor: Option<Point>,
        move_down: bool,
    ) -> (r: (Vec<Execution>, Option<RunError>))
        requires
            old(self).wf(),
            ranges@.len() == languages@.len(),
            ranges@.len() == kernels@.len(),
        ensures
            final(self).wf(),
            !old(self).enabled || editor is None || !shows_project_file ==> r.0@.len() == 0
                && *final(self) == *old(self) && failure_of(r.1) == (if old(self).enabled
                && editor is None {
                Some(RunFailure::EditorDropped)
            } else {
                None
            }),
            old(self).enabled && editor is Some && shows_project_file ==> {
                let editor = editor->0;
                let started = old(self).sessions@.contains_key(editor);
                let session = if started {
                    old(self).sessions@[editor]
                } else {
                    new_session
                };
                &&& (r.0@, failure_of(r.1)) == executions(
                    session,
                    started,
                    ranges@,
                    languages@,
                    kernels@,
                    next_cursor,
                    move_down,
                )
                &&& final(self).enabled
                &&& final(self).selected_kernels == old(self).selected_kernels
                &&& final(self).sessions@ == (if r.0@.len() > 0 {
                    old(self).sessions@.insert(editor, session)
                } else {
                    old(self).sessions@
                })
            },
    {
        let mut found: Vec<Execution> = Vec::new();
        if !self.enabled {
            return (found, None);
        }
        let id: u64 = match editor {
            Some(id) => id,
            None => {
                return (found, Some(RunError::EditorDropped));
            },
        };
        if !shows_project_file {
            return (found, None);
        }
        let known: Option<u64> = self.get_session(id);
        let session: u64 = match known {
            Some(session) => session,
            None => new_session,
        };
        let mut started: bool = known.is_some();
        let ghost goal = executions(
            session,
            started,
            ranges@,
            languages@,
            kernels@,
            next_cursor,
            move_down,
        );
        let ghost before_all = self.sessions@;
        let mut i: usize = 0;
        assert(ranges@.skip(0) =~= ranges@);
        assert(languages@.skip(0) =~= languages@);
        assert(kernels@.skip(0) =~= kernels@);
        assert(found@ + goal.0 =~= goal.0);
        while i < ranges.len()
            invariant
                self.wf(),
                self.enabled,
                old(self).enabled,
                editor == Some(id),
                shows_project_file,
                self.selected_kernels == old(self).selected_kernels,
                before_all == old(self).sessions@,
                i <= ranges@.len(),
                ranges@.len() == languages@.len(),
                ranges@.len() == kernels@.len(),
                session == (if before_all.contains_key(id) {
                    before_all[id]
                } else {
                    new_session
                }),
                goal == executions(
                    session,
                    before_all.contains_key(id),
                    ranges@,
                    languages@,
                    kernels@,
                    next_cursor,
                    move_down,
                ),
                started == (before_all.contains_key(id) || found@.len() > 0),
                self.sessions@ == (if found@.len() > 0 {
                    before_all.insert(id, session)
                } else {
                    before_all
                }),
                ({
                    let (rest, failure) = executions(
                        session,
                        started,
                        ranges@.skip(i as int),
                        languages@.skip(i as int),
                        kernels@.skip(i as int),
                        next_cursor,
                        move_down,
                    );
                    goal == (found@ + rest, failure)
                }),
            decreases ranges.len() - i,
        {
            let ghost before = found@;
            proof {
                let rest = ranges@.skip(i as int);
                assert(rest.drop_first() =~= ranges@.skip(i + 1));
                assert(rest.first() == ranges@[i as int]);
                assert(languages@.skip(i as int).drop_first() =~= languages@.skip(i + 1));
                assert(languages@.skip(i as int).first() == languages@[i as int]);
                assert(kernels@.skip(i as int).drop_first() =~= kernels@.skip(i + 1));
                assert(kernels@.skip(i as int).first() == kernels@[i as int]);
            }
            if let Some(language) = &languages[i] {
                match kernels[i] {
                    None => {
                        assert(before + Seq::<Execution>::empty() =~= before);
                        return (found, Some(RunError::NoKernel(copy_text(language.as_str()))));
                    },
                    Some(kernel) => {
                        let first = Execution {
                            session,
                            start_with: if started {
                                None
                            } else {
                                Some(kernel)
                            },
                            range: ranges[i],
                            next_cursor,
                            move_down,
                        };
                        found.push(first);
                        if !started {
                            let _ = self.sessions.insert(id, session);
                            started = true;
                        }
                        proof {
                            let (rest, failure) = executions(
                                session,
                                true,
                                ranges@.skip(i + 1),
                                languages@.skip(i + 1),
                                kernels@.skip(i + 1),
                                next_cursor,
                                move_down,
                            );
                            assert(found@ + rest =~= before + (seq![first] + rest));
                            assert(self.sessions@ =~= before_all.insert(id, session));
                        }
                    },
                }
            }
            i = i + 1;
        }
        assert(found@ + Seq::<Execution>::empty() =~= found@);
        (found, None)
    }
}

proof fn lemma_cells_from(
    lines: Seq<Line>,
    prefixes: Seq<String>,
    start_row: int,
    row: int,
    end_row: int,
)
    requires
        0 <= start_row < row <= lines.len(),
        lines.len() <= u32::MAX,
    ensures
        ({
            let (found, next) = cells_from(lines, prefixes, start_row, row, end_row);
            &&& found.len() > 0
            &&& found[0].start == Point { row: start_row as u32, column: 0 }
            &&& forall|i: int|
                0 <= i < found.len() ==> start_row <= (#[trigger] found[i]).start.row
                    <= found[i].end.row < lines.len()
            &&& forall|i: int, j: int|
                0 <= i < j < found.len() ==> (#[trigger] found[i]).end.row < (
                #[trigger] found[j]).start.row
            &&& next matches Some(next) ==> next.row > end_row && found.last().end.row < next.row
        }),
    decreases lines.len() - row,
{
    if row >= lines.len() {
        lemma_last_row(lines, start_row, lines.len() - 1);
    } else if starts_cell(lines[row].text@, prefixes) {
        lemma_last_row(lines, start_row, row - 1);
        if row <= end_row {
            lemma_cells_from(lines, prefixes, row, row + 1, end_row);
            let (rest, next) = cells_from(lines, prefixes, row, row + 1, end_row);
            let (found, _) = cells_from(lines, prefixes, start_row, row, end_row);
            assert forall|i: int| 0 <= i < found.len() implies start_row <= (
            #[trigger] found[i]).start.row <= found[i].end.row < lines.len() by {
                if i > 0 {
                    assert(found[i] == rest[i - 1]);
                }
            }
            assert forall|i: int, j: int| 0 <= i < j < found.len() implies (
            #[trigger] found[i]).end.row < (#[trigger] found[j]).start.row by {
                assert(found[j] == rest[j - 1]);
                if i > 0 {
                    assert(found[i] == rest[i - 1]);
                }
            }
            assert(found.last() == rest.last());
        }
    } else {
        lemma_cells_from(lines, prefixes, start_row, row + 1, end_row);
    }
}

/// The cells of a selection follow one another without overlapping, each starts at the
/// start of a line, and the next cell starts behind the selection and behind them.
pub proof fn law_cells_are_in_order(buffer: Buffer, start_row: int, end_row: int)
    requires
        buffer.wf(),
        0 <= start_row < buffer.lines@.len(),
    ensures
        ({
            let (found, next) = cells(buffer, start_row, end_row);
            &&& forall|i: int|
                0 <= i < found.len() ==> (#[trigger] found[i]).start.row <= found[i].end.row
                    < buffer.lines@.len()
            &&& forall|i: int, j: int|
                0 <= i < j < found.len() ==> (#[trigger] found[i]).end.row < (
                #[trigger] found[j]).start.row
            &&& next matches Some(next) ==> found.len() > 0 && next.row > end_row
                && found.last().end.row < next.row
        }),
{
    if let Some(language) = buffer.language {
        let prefixes = language.line_comment_prefixes@;
        lemma_cell_start(buffer.lines@, prefixes, start_row);
        if let Some(start) = cell_start(buffer.lines@, prefixes, start_row) {
            lemma_cells_from(buffer.lines@, prefixes, start, start_row + 1, end_row);
        }
    }
}

proof fn lemma_cell_start(lines: Seq<Line>, prefixes: Seq<String>, row: int)
    ensures
        cell_start(lines, prefixes, row) matches Some(start) ==> 0 <= start <= row && starts_cell(
            lines[start].text@,
            prefixes,
        ),
    decreases row + 1,
{
    if row >= 0 && !starts_cell(lines[row].text@, prefixes) {
        lemma_cell_start(lines, prefixes, row - 1);
    }
}

/// The first cell of a selection starts at the last line up to the selection that starts
/// a cell.
pub proof fn law_first_cell_holds_the_selection(buffer: Buffer, start_row: int, end_row: int)
    requires
        buffer.wf(),
        0 <= start_row < buffer.lines@.len(),
        cells(buffer, start_row, end_row).0.len() > 0,
    ensures
        ({
            let first = cells(buffer, start_row, end_row).0[0];
            &&& first.start.row <= start_row
            &&& starts_cell(
                buffer.lines@[first.start.row as int].text@,
                buffer.language->0.line_comment_prefixes@,
            )
            &&& forall|row: int|
                first.start.row < row <= start_row ==> !starts_cell(
                    (#[trigger] buffer.lines@[row]).text@,
                    buffer.language->0.line_comment_prefixes@,
                )
        }),
{
    let prefixes = buffer.language->0.line_comment_prefixes@;
    lemma_cell_start(buffer.lines@, prefixes, start_row);
    let start = cell_start(buffer.lines@, prefixes, start_row)->0;
    lemma_cells_from(buffer.lines@, prefixes, start, start_row + 1, end_row);
    lemma_no_start_between(buffer.lines@, prefixes, start_row);
}

proof fn lemma_no_start_between(lines: Seq<Line>, prefixes: Seq<String>, row: int)
    ensures
        cell_start(lines, prefixes, row) matches Some(start) ==> forall|k: int|
            start < k <= row ==> !starts_cell((#[trigger] lines[k]).text@, prefixes),
    decreases row + 1,
{
    if row >= 0 && !starts_cell(lines[row].text@, prefixes) {
        lemma_no_start_between(lines, prefixes, row - 1);
    }
}

/// Whether a line is a comment that begins with the marker of a cell.
pub open spec fn is_marker(line: Seq<char>, prefixes: Seq<String>) -> bool {
    exists|i: int|
        0 <= i < prefixes.len() && (#[trigger] prefixes[i]@ + seq!['%', '%']).is_prefix_of(line)
}

/// Whether a row of a buffer holds the marker of a cell.
pub open spec fn marks(buffer: Buffer, row: int) -> bool {
    0 <= row < buffer.lines@.len() && buffer.language is Some && is_marker(
        buffer.lines@[row].text@,
        buffer.language->0.line_comment_prefixes@,
    )
}

proof fn lemma_marker(line: Seq<char>, prefixes: Seq<String>)
    ensures
        is_marker(line, prefixes) == starts_cell(line, prefixes),
{
    assert forall|i: int| 0 <= i < prefixes.len() implies (#[trigger] prefixes[i]@ + seq![
        '%',
        '%',
    ]).is_prefix_of(line) == starts_with(line, prefixes[i]@ + seq!['%', '%']) by {
        let start = prefixes[i]@ + seq!['%', '%'];
        if start.len() <= line.len() {
            assert(start.is_prefix_of(line) <==> start =~= line.subrange(0, start.len() as int));
        }
    }
    if is_marker(line, prefixes) {
        let i: int = choose|i: int|
            0 <= i < prefixes.len() && (#[trigger] prefixes[i]@ + seq!['%', '%']).is_prefix_of(
                line,
            );
        assert(starts_with(line, prefixes[i]@ + seq!['%', '%']));
    }
    if starts_cell(line, prefixes) {
        let i: int = choose|i: int|
            0 <= i < prefixes.len() && starts_with(
                line,
                (#[trigger] prefixes[i])@ + seq!['%', '%'],
            );
        assert((prefixes[i]@ + seq!['%', '%']).is_prefix_of(line));
    }
}

/// Whether a range of rows ends at the last row with text before the next marker.
#[verifier::opaque]
spec fn ends_well(buffer: Buffer, range: PointRange) -> bool {
    &&& range.start.column == 0
    &&& range.start.row <= range.end.row < buffer.lines@.len()
    &&& range.end.column == byte_len(buffer.lines@[range.end.row as int].text@)
    &&& range.end.row > range.start.row ==> !is_blank(buffer.lines@[range.end.row as int].text@)
    &&& forall|row: int|
        range.start.row < row <= range.end.row ==> !(#[trigger] marks(buffer, row))
    &&& forall|row: int|
        range.end.row < row < buffer.lines@.len() && (forall|k: int|
            range.end.row < k <= row ==> !(#[trigger] marks(buffer, k))) ==> is_blank(
            (#[trigger] buffer.lines@[row]).text@,
        )
}

proof fn lemma_cell_ends_well(buffer: Buffer, start_row: int, stop: int)
    requires
        buffer.wf(),
        0 <= start_row < stop <= buffer.lines@.len(),
        forall|row: int| start_row < row < stop ==> !(#[trigger] marks(buffer, row)),
        stop == buffer.lines@.len() || marks(buffer, stop),
    ensures
        ends_well(buffer, cell(buffer.lines@, start_row, stop - 1)),
        cell(buffer.lines@, start_row, stop - 1).start.row == start_row,
        cell(buffer.lines@, start_row, stop - 1).end.row < stop,
{
    reveal(ends_well);
    let lines = buffer.lines@;
    lemma_last_row(lines, start_row, stop - 1);
    lemma_blank_behind(lines, start_row, stop - 1);
    let range = cell(lines, start_row, stop - 1);
    assert forall|row: int|
        range.end.row < row < lines.len() && (forall|k: int|
            range.end.row < k <= row ==> !(#[trigger] marks(buffer, k))) implies is_blank(
        (#[trigger] lines[row]).text@,
    ) by {
        if row >= stop {
            assert(marks(buffer, stop));
        }
    }
}

proof fn lemma_blank_behind(lines: Seq<Line>, start_row: int, end_row: int)
    requires
        0 <= start_row <= end_row < lines.len(),
    ensures
        ({
            let last: int = last_row_with_text(lines, start_row, end_row);
            &&& forall|row: int|
                last < row <= end_row ==> is_blank((#[trigger] lines[row]).text@)
            &&& last > start_row ==> !is_blank(lines[last].text@)
        }),
    decreases end_row - start_row,
{
    if end_row > start_row && is_blank(lines[end_row].text@) {
        lemma_blank_behind(lines, start_row, end_row - 1);
    }
}

#[verifier::rlimit(60)]
proof fn lemma_cells_by_markers(
    buffer: Buffer,
    start_row: int,
    row: int,
    end_row: int,
)
    requires
        buffer.wf(),
        buffer.language is Some,
        0 <= start_row < row <= buffer.lines@.len(),
        marks(buffer, start_row),
        forall|k: int| start_row < k < row ==> !(#[trigger] marks(buffer, k)),
    ensures
        ({
            let (found, next) = cells_from(
                buffer.lines@,
                buffer.language->0.line_comment_prefixes@,
                start_row,
                row,
                end_row,
            );
            &&& found.len() > 0
            &&& found[0].start.row == start_row
            &&& forall|i: int| 0 <= i < found.len() ==> ends_well(buffer, #[trigger] found[i])
            &&& forall|i: int|
                0 <= i < found.len() ==> marks(buffer, (#[trigger] found[i]).start.row as int)
            &&& forall|i: int|
                0 < i < found.len() ==> row <= (#[trigger] found[i]).start.row <= end_row
            &&& forall|k: int|
                row <= k <= end_row && #[trigger] marks(buffer, k) ==> starts_at(found, k)
            &&& next matches Some(next) ==> {
                &&& next.column == 0
                &&& marks(buffer, next.row as int)
                &&& row <= next.row
                &&& end_row < next.row
                &&& forall|k: int|
                    row <= k < next.row && end_row < k ==> !(#[trigger] marks(buffer, k))
            }
            &&& next is None ==> forall|k: int|
                row <= k && end_row < k ==> !(#[trigger] marks(buffer, k))
        }),
    decreases buffer.lines@.len() - row,
{
    let lines = buffer.lines@;
    let prefixes = buffer.language->0.line_comment_prefixes@;
    let (found, next) = cells_from(lines, prefixes, start_row, row, end_row);
    if row >= lines.len() {
        lemma_cell_ends_well(buffer, start_row, row);
    } else {
        lemma_marker(lines[row].text@, prefixes);
        if starts_cell(lines[row].text@, prefixes) {
            assert(marks(buffer, row));
            lemma_cell_ends_well(buffer, start_row, row);
            if row <= end_row {
                lemma_cells_by_markers(buffer, row, row + 1, end_row);
                let (rest, after) = cells_from(lines, prefixes, row, row + 1, end_row);
                assert(found =~= seq![cell(lines, start_row, row - 1)] + rest);
                assert forall|i: int| 0 < i < found.len() implies found[i] == rest[i - 1] by {}
                assert forall|i: int| 0 <= i < found.len() implies ends_well(
                    buffer,
                    #[trigger] found[i],
                ) by {
                    if i > 0 {
                        assert(found[i] == rest[i - 1]);
                    }
                }
                assert forall|i: int| 0 <= i < found.len() implies marks(
                    buffer,
                    (#[trigger] found[i]).start.row as int,
                ) by {
                    if i > 0 {
                        assert(found[i] == rest[i - 1]);
                    }
                }
                assert forall|i: int| 0 < i < found.len() implies row <= (
                #[trigger] found[i]).start.row <= end_row by {
                    assert(found[i] == rest[i - 1]);
                }
                assert forall|k: int|
                    row <= k <= end_row && #[trigger] marks(buffer, k) implies starts_at(
                    found,
                    k,
                ) by {
                    if k == row {
                        assert(found[1] == rest[0]);
                    } else {
                        let i: int = choose|i: int|
                            0 <= i < rest.len() && (#[trigger] rest[i]).start.row == k;
                        assert(found[i + 1] == rest[i]);
                    }
                }
            }
        } else {
            assert(!marks(buffer, row));
            lemma_cells_by_markers(buffer, start_row, row + 1, end_row);
        }
    }
}

/// Whether one of some ranges starts at a row.
pub open spec fn starts_at(ranges: Seq<PointRange>, row: int) -> bool {
    exists|i: int| 0 <= i < ranges.len() && (#[trigger] ranges[i]).start.row == row
}

proof fn lemma_first_marker(buffer: Buffer, row: int)
    requires
        buffer.language is Some,
        row < buffer.lines@.len(),
    ensures
        ({
            let start = cell_start(
                buffer.lines@,
                buffer.language->0.line_comment_prefixes@,
                row,
            );
            &&& start matches Some(start) ==> 0 <= start <= row && marks(buffer, start)
                && forall|k: int| start < k <= row ==> !(#[trigger] marks(buffer, k))
            &&& start is None ==> forall|k: int| k <= row ==> !(#[trigger] marks(buffer, k))
        }),
    decreases row + 1,
{
    if row >= 0 {
        lemma_marker(buffer.lines@[row].text@, buffer.language->0.line_comment_prefixes@);
        if !starts_cell(
            buffer.lines@[row].text@,
            buffer.language->0.line_comment_prefixes@,
        ) {
            lemma_first_marker(buffer, row - 1);
        }
    }
}

/// The cells of a selection are told apart by the lines that mark them and by nothing else:
/// a cell starts at each marker from the last one up to the selection on to its end, holds
/// no other marker, and ends at the last line with text before the next one. The next cell
/// starts at the first marker behind the selection.
pub proof fn law_markers_part_the_cells(
    buffer: Buffer,
    start_row: u32,
    end_row: u32,
    r: (Vec<PointRange>, Option<Point>),
)
    requires
        buffer.wf(),
        start_row <= end_row,
        start_row < buffer.lines@.len(),
        call_ensures(Buffer::jupytext_cells, (&buffer, start_row, end_row), r),
    ensures
        r.0@.len() == 0 <==> forall|k: int| k <= start_row ==> !(#[trigger] marks(buffer, k)),
        r.0@.len() == 0 ==> r.1 is None,
        forall|i: int|
            0 <= i < r.0@.len() ==> {
                let range = #[trigger] r.0@[i];
                &&& range.start.column == 0
                &&& marks(buffer, range.start.row as int)
                &&& range.start.row <= range.end.row < buffer.lines@.len()
                &&& range.end.column == byte_len(buffer.lines@[range.end.row as int].text@)
                &&& range.end.row > range.start.row ==> !is_blank(
                    buffer.lines@[range.end.row as int].text@,
                )
                &&& forall|row: int|
                    range.start.row < row <= range.end.row ==> !(#[trigger] marks(buffer, row))
                &&& forall|row: int|
                    range.end.row < row < buffer.lines@.len() && (forall|k: int|
                        range.end.row < k <= row ==> !(#[trigger] marks(buffer, k))) ==> is_blank(
                        (#[trigger] buffer.lines@[row]).text@,
                    )
            },
        r.0@.len() > 0 ==> r.0@[0].start.row <= start_row,
        r.0@.len() > 0 ==> forall|k: int|
            r.0@[0].start.row < k <= start_row ==> !(#[trigger] marks(buffer, k)),
        r.0@.len() > 0 ==> forall|k: int|
            start_row < k <= end_row && #[trigger] marks(buffer, k) ==> starts_at(r.0@, k),
        forall|i: int| 0 < i < r.0@.len() ==> (#[trigger] r.0@[i]).start.row <= end_row,
        forall|i: int, j: int|
            0 <= i < j < r.0@.len() ==> (#[trigger] r.0@[i]).end.row < (
            #[trigger] r.0@[j]).start.row,
        r.1 matches Some(next) ==> {
            &&& next.column == 0
            &&& end_row < next.row
            &&& marks(buffer, next.row as int)
            &&& forall|k: int| end_row < k < next.row ==> !(#[trigger] marks(buffer, k))
        },
        r.0@.len() > 0 && r.1 is None ==> forall|k: int|
            end_row < k ==> !(#[trigger] marks(buffer, k)),
{
    reveal(ends_well);
    law_cells_are_in_order(buffer, start_row as int, end_row as int);
    if let Some(language) = buffer.language {
        let prefixes = language.line_comment_prefixes@;
        lemma_first_marker(buffer, start_row as int);
        if let Some(start) = cell_start(buffer.lines@, prefixes, start_row as int) {
            lemma_cells_by_markers(buffer, start, start_row + 1, end_row as int);
            assert(marks(buffer, start));
        }
    }
}

/// What is run for a selection: in Markdown the code blocks, elsewhere the cells of the
/// selection, and only where there is none the selection itself, if it starts and ends in
/// one language. The code blocks are those with a kernel, in the order in which they come.
pub proof fn law_what_is_run(
    buffer: Buffer,
    start_row: u32,
    end_row: u32,
    injections: Vec<Injection>,
    kernels: Vec<String>,
    r: (Vec<PointRange>, Option<Point>),
    in_cells: (Vec<PointRange>, Option<Point>),
)
    requires
        buffer.wf(),
        start_row <= end_row < buffer.lines@.len(),
        call_ensures(
            Buffer::runnable_ranges,
            (&buffer, start_row, end_row, &injections, &kernels),
            r,
        ),
        call_ensures(Buffer::jupytext_cells, (&buffer, start_row, end_row), in_cells),
    ensures
        ({
            let in_markdown = buffer.language is Some && buffer.language->0.name@ == "Markdown"@;
            &&& in_markdown ==> r.1 is None
            &&& in_markdown ==> forall|i: int|
                0 <= i < injections@.len() ==> (is_supported(
                    (#[trigger] injections@[i]).language@,
                    kernels@,
                ) ==> r.0@.contains(
                    PointRange { start: injections@[i].start, end: injections@[i].end },
                ))
            &&& !in_markdown && in_cells.0@.len() > 0 ==> r.0@ == in_cells.0@ && r.1 == in_cells.1
            &&& !in_markdown && in_cells.0@.len() == 0 ==> {
                &&& r.1 is None
                &&& r.0@.len() <= 1
                &&& forall|i: int|
                    0 <= i < r.0@.len() ==> {
                        let range = #[trigger] r.0@[i];
                        &&& range.start == (Point { row: start_row, column: 0 })
                        &&& start_row <= range.end.row <= end_row
                        &&& range.end.column == byte_len(
                            buffer.lines@[range.end.row as int].text@,
                        )
                        &&& forall|row: int|
                            range.end.row < row <= end_row ==> is_blank(
                                (#[trigger] buffer.lines@[row]).text@,
                            )
                        &&& range.end.row > start_row ==> !is_blank(
                            buffer.lines@[range.end.row as int].text@,
                        )
                        &&& buffer.lines@[start_row as int].start_language is Some
                        &&& buffer.lines@[start_row as int].start_language
                            == buffer.lines@[range.end.row as int].end_language
                    }
                &&& (buffer.lines@[start_row as int].start_language is Some && forall|row: int|
                    start_row <= row <= end_row ==> (#[trigger] buffer.lines@[row]).end_language
                        == buffer.lines@[start_row as int].start_language) ==> r.0@.len() == 1
            }
        }),
{
    lemma_last_row(buffer.lines@, start_row as int, end_row as int);
    lemma_blank_behind(buffer.lines@, start_row as int, end_row as int);
    if buffer.language is Some && buffer.language->0.name@ == "Markdown"@ {
        assert forall|i: int|
            0 <= i < injections@.len() && is_supported(
                (#[trigger] injections@[i]).language@,
                kernels@,
            ) implies r.0@.contains(
            PointRange { start: injections@[i].start, end: injections@[i].end },
        ) by {
            lemma_block_is_there(injections@, kernels@, i);
        }
    }
}

proof fn lemma_block_is_there(injections: Seq<Injection>, kernels: Seq<String>, i: int)
    requires
        0 <= i < injections.len(),
        is_supported(injections[i].language@, kernels),
    ensures
        supported_blocks(injections, kernels).contains(
            PointRange { start: injections[i].start, end: injections[i].end },
        ),
    decreases injections.len(),
{
    let wanted = PointRange { start: injections[i].start, end: injections[i].end };
    let all = supported_blocks(injections, kernels);
    let before = supported_blocks(injections.drop_last(), kernels);
    if i == injections.len() - 1 {
        assert(all[before.len() as int] == wanted);
    } else {
        assert(injections.drop_last()[i] == injections[i]);
        lemma_block_is_there(injections.drop_last(), kernels, i);
        let k: int = choose|k: int| 0 <= k < before.len() && before[k] == wanted;
        assert(all[k] == wanted);
    }
}

/// Whether code blocks are those of some that are given, from the first one on, in their
/// order, and only such with a kernel.
pub open spec fn picked_in_order(
    blocks: Seq<PointRange>,
    injections: Seq<Injection>,
    kernels: Seq<String>,
    places: Seq<int>,
) -> bool {
    &&& places.len() == blocks.len()
    &&& forall|i: int|
        0 <= i < places.len() ==> 0 <= #[trigger] places[i] < injections.len() && blocks[i]
            == (PointRange {
            start: injections[places[i]].start,
            end: injections[places[i]].end,
        }) && exists|k: int|
            0 <= k < kernels.len() && lowercase((#[trigger] kernels[k])@) == lowercase(
                injections[places[i]].language@,
            )
    &&& forall|i: int, j: int|
        0 <= i < j < places.len() ==> #[trigger] places[i] < #[trigger] places[j]
}

/// Only code blocks with a kernel are run, each at most once and in their order.
pub proof fn law_only_supported_blocks_are_run(
    injections: Vec<Injection>,
    kernels: Vec<String>,
    r: Vec<PointRange>,
)
    requires
        call_ensures(markdown_code_blocks, (&injections, &kernels), r),
    ensures
        exists|places: Seq<int>| picked_in_order(r@, injections@, kernels@, places),
{
    lemma_picked_in_order(injections@, kernels@);
}

proof fn lemma_picked_in_order(injections: Seq<Injection>, kernels: Seq<String>)
    ensures
        exists|places: Seq<int>|
            picked_in_order(supported_blocks(injections, kernels), injections, kernels, places),
    decreases injections.len(),
{
    let all = supported_blocks(injections, kernels);
    if injections.len() == 0 {
        assert(picked_in_order(all, injections, kernels, Seq::<int>::empty()));
    } else {
        let rest = injections.drop_last();
        lemma_picked_in_order(rest, kernels);
        let before = supported_blocks(rest, kernels);
        let places = choose|places: Seq<int>| picked_in_order(before, rest, kernels, places);
        if is_supported(injections.last().language@, kernels) {
            let next = places.push(injections.len() - 1);
            assert forall|i: int| 0 <= i < next.len() implies 0 <= #[trigger] next[i]
                < injections.len() && all[i] == (PointRange {
                start: injections[next[i]].start,
                end: injections[next[i]].end,
            }) && exists|k: int|
                0 <= k < kernels.len() && lowercase((#[trigger] kernels[k])@) == lowercase(
                    injections[next[i]].language@,
                ) by {
                if i < places.len() {
                    assert(next[i] == places[i]);
                    assert(rest[places[i]] == injections[places[i]]);
                }
            }
            assert forall|i: int, j: int| 0 <= i < j < next.len() implies #[trigger] next[i]
                < #[trigger] next[j] by {
                assert(next[i] == places[i]);
                if j < places.len() {
                    assert(next[j] == places[j]);
                }
            }
            assert(picked_in_order(all, injections, kernels, next));
        } else {
            assert forall|i: int| 0 <= i < places.len() implies 0 <= #[trigger] places[i]
                < injections.len() && all[i] == (PointRange {
                start: injections[places[i]].start,
                end: injections[places[i]].end,
            }) && exists|k: int|
                0 <= k < kernels.len() && lowercase((#[trigger] kernels[k])@) == lowercase(
                    injections[places[i]].language@,
                ) by {
                assert(rest[places[i]] == injections[places[i]]);
            }
            assert(picked_in_order(all, injections, kernels, places));
        }
    }
}

proof fn lemma_executions(
    session: u64,
    started: bool,
    ranges: Seq<PointRange>,
    languages: Seq<Option<String>>,
    kernels: Seq<Option<u64>>,
    next_cursor: Option<Point>,
    move_down: bool,
    k: int,
)
    requires
        ranges.len() == languages.len(),
        ranges.len() == kernels.len(),
        0 <= k <= ranges.len(),
        forall|i: int| 0 <= i < k ==> (#[trigger] languages[i]) is Some && kernels[i] is Some,
        k < ranges.len() ==> languages[k] is Some && kernels[k] is None,
    ensures
        ({
            let (all, failure) = executions(
                session,
                started,
                ranges,
                languages,
                kernels,
                next_cursor,
                move_down,
            );
            &&& all.len() == k
            &&& forall|i: int|
                0 <= i < k ==> (#[trigger] all[i]) == (Execution {
                    session,
                    start_with: if started || i > 0 {
                        None
                    } else {
                        kernels[0]
                    },
                    range: ranges[i],
                    next_cursor,
                    move_down,
                })
            &&& k == ranges.len() ==> failure is None
            &&& k < ranges.len() ==> failure == Some(RunFailure::NoKernel(languages[k]->0@))
        }),
    decreases ranges.len(),
{
    if ranges.len() > 0 && k > 0 {
        let less = ranges.drop_first();
        let tongues = languages.drop_first();
        let cores = kernels.drop_first();
        assert(languages[0] is Some && kernels[0] is Some);
        assert forall|i: int| 0 <= i < k - 1 implies (#[trigger] tongues[i]) is Some
            && cores[i] is Some by {
            assert(tongues[i] == languages[i + 1]);
        }
        lemma_executions(session, true, less, tongues, cores, next_cursor, move_down, k - 1);
        let (rest, _) = executions(
            session,
            true,
            less,
            tongues,
            cores,
            next_cursor,
            move_down,
        );
        let (all, _) = executions(
            session,
            started,
            ranges,
            languages,
            kernels,
            next_cursor,
            move_down,
        );
        assert forall|i: int| 0 <= i < k implies (#[trigger] all[i]) == (Execution {
            session,
            start_with: if started || i > 0 {
                None
            } else {
                kernels[0]
            },
            range: ranges[i],
            next_cursor,
            move_down,
        }) by {
            if i > 0 {
                assert(all[i] == rest[i - 1]);
                assert(less[i - 1] == ranges[i]);
            }
        }
    }
}

/// Ranges are run one after the other in the session of their editor. Where it has none, the
/// first one starts a session with its kernel. The first range without a kernel ends the run,
/// and its language is named.
pub proof fn law_ranges_are_run_in_order(
    store: &mut ReplStore,
    editor: u64,
    new_session: u64,
    ranges: Vec<PointRange>,
    languages: Vec<Option<String>>,
    kernels: Vec<Option<u64>>,
    next_cursor: Option<Point>,
    move_down: bool,
    r: (Vec<Execution>, Option<RunError>),
    k: int,
    i: int,
)
    requires
        old(store).enabled,
        ranges@.len() == languages@.len(),
        ranges@.len() == kernels@.len(),
        call_ensures(
            ReplStore::run,
            (
                store,
                Some(editor),
                true,
                new_session,
                &ranges,
                &languages,
                &kernels,
                next_cursor,
                move_down,
            ),
            r,
        ),
        0 <= k <= ranges@.len(),
        forall|j: int| 0 <= j < k ==> (#[trigger] languages@[j]) is Some && kernels@[j] is Some,
        k < ranges@.len() ==> languages@[k] is Some && kernels@[k] is None,
        0 <= i < k,
    ensures
        ({
            let has_session = old(store).sessions@.contains_key(editor);
            &&& r.0@.len() == k
            &&& r.0@[i].range == ranges@[i] && r.0@[i].next_cursor == next_cursor
                && r.0@[i].move_down == move_down
            &&& has_session ==> r.0@[i].session == old(store).sessions@[editor]
                && r.0@[i].start_with is None
            &&& !has_session ==> r.0@[i].session == new_session
            &&& !has_session && i == 0 ==> r.0@[i].start_with == kernels@[0]
            &&& !has_session && i > 0 ==> r.0@[i].start_with is None
            &&& final(store).sessions@.contains_key(editor)
                && final(store).sessions@[editor] == r.0@[i].session
            &&& k == ranges@.len() ==> r.1 is None
            &&& k < ranges@.len() ==> (r.1 matches Some(RunError::NoKernel(name)) && name@
                == languages@[k]->0@)
        }),
{
    let started = old(store).sessions@.contains_key(editor);
    let session = if started {
        old(store).sessions@[editor]
    } else {
        new_session
    };
    lemma_executions(
        session,
        started,
        ranges@,
        languages@,
        kernels@,
        next_cursor,
        move_down,
        k,
    );
    let (all, _) = executions(
        session,
        started,
        ranges@,
        languages@,
        kernels@,
        next_cursor,
        move_down,
    );
    assert(r.0@[i] == all[i]);
}

proof fn lemma_skipped(
    session: u64,
    started: bool,
    ranges: Seq<PointRange>,
    languages: Seq<Option<String>>,
    kernels: Seq<Option<u64>>,
    next_cursor: Option<Point>,
    move_down: bool,
    i: int,
)
    requires
        ranges.len() == languages.len(),
        ranges.len() == kernels.len(),
        0 <= i < ranges.len(),
        languages[i] is None,
    ensures
        executions(session, started, ranges, languages, kernels, next_cursor, move_down)
            == executions(
            session,
            started,
            ranges.remove(i),
            languages.remove(i),
            kernels.remove(i),
            next_cursor,
            move_down,
        ),
    decreases ranges.len(),
{
    if i == 0 {
        assert(ranges.remove(0) =~= ranges.drop_first());
        assert(languages.remove(0) =~= languages.drop_first());
        assert(kernels.remove(0) =~= kernels.drop_first());
    } else {
        let less = ranges.drop_first();
        let tongues = languages.drop_first();
        let cores = kernels.drop_first();
        lemma_skipped(session, started, less, tongues, cores, next_cursor, move_down, i - 1);
        lemma_skipped(session, true, less, tongues, cores, next_cursor, move_down, i - 1);
        assert(ranges.remove(i).drop_first() =~= less.remove(i - 1));
        assert(languages.remove(i).drop_first() =~= tongues.remove(i - 1));
        assert(kernels.remove(i).drop_first() =~= cores.remove(i - 1));
        assert(ranges.remove(i).first() == ranges.first());
        assert(languages.remove(i).first() == languages.first());
        assert(kernels.remove(i).first() == kernels.first());
    }
}

/// A range without a language is passed over.
pub proof fn law_ranges_without_a_language_are_passed_over(
    store: &mut ReplStore,
    other: &mut ReplStore,
    editor: u64,
    new_session: u64,
    ranges: Vec<PointRange>,
    languages: Vec<Option<String>>,
    kernels: Vec<Option<u64>>,
    fewer_ranges: Vec<PointRange>,
    fewer_languages: Vec<Option<String>>,
    fewer_kernels: Vec<Option<u64>>,
    next_cursor: Option<Point>,
    move_down: bool,
    a: (Vec<Execution>, Option<RunError>),
    b: (Vec<Execution>, Option<RunError>),
    i: int,
)
    requires
        old(store).enabled,
        *old(other) == *old(store),
        ranges@.len() == languages@.len(),
        ranges@.len() == kernels@.len(),
        0 <= i < ranges@.len(),
        languages@[i] is None,
        fewer_ranges@ == ranges@.remove(i),
        fewer_languages@ == languages@.remove(i),
        fewer_kernels@ == kernels@.remove(i),
        call_ensures(
            ReplStore::run,
            (
                store,
                Some(editor),
                true,
                new_session,
                &ranges,
                &languages,
                &kernels,
                next_cursor,
                move_down,
            ),
            a,
        ),
        call_ensures(
            ReplStore::run,
            (
                other,
                Some(editor),
                true,
                new_session,
                &fewer_ranges,
                &fewer_languages,
                &fewer_kernels,
                next_cursor,
                move_down,
            ),
            b,
        ),
    ensures
        a.0@ == b.0@,
        a.1 is Some == b.1 is Some,
        final(store).sessions@ == final(other).sessions@,
{
    let started = old(store).sessions@.contains_key(editor);
    let session = if started {
        old(store).sessions@[editor]
    } else {
        new_session
    };
    lemma_skipped(
        session,
        started,
        ranges@,
        languages@,
        kernels@,
        next_cursor,
        move_down,
        i,
    );
}

/// What an editor can run in: the session it has, or else a kernel for its language in its
/// worktree, or one that is to be set up where the language has some.
pub proof fn law_where_an_editor_runs(
    store: ReplStore,
    editor: u64,
    language: Option<&str>,
    worktree: Option<u64>,
    kernel: Option<u64>,
    known: Vec<String>,
    r: SessionSupport,
    supported: bool,
)
    requires
        call_ensures(ReplStore::session, (&store, editor, language, worktree, kernel, &known), r),
        language is Some ==> call_ensures(language_supported, (language->0, &known), supported),
    ensures
        store.sessions@.contains_key(editor) ==> r == SessionSupport::ActiveSession(
            store.sessions@[editor],
        ),
        !store.sessions@.contains_key(editor) && (language is None || worktree is None) ==> r
            is Unsupported,
        !store.sessions@.contains_key(editor) && language is Some && worktree is Some ==> {
            &&& kernel is Some ==> r == SessionSupport::Inactive(kernel->0)
            &&& kernel is None && supported ==> (r matches SessionSupport::RequiresSetup(name)
                && name@ == language->0@)
            &&& kernel is None && !supported ==> r is Unsupported
        },
        language is Some ==> (supported <==> exists|i: int|
            0 <= i < known@.len() && lowercase((#[trigger] known@[i])@) == lowercase(
                language->0@,
            )),
{
}

/// A cell starts with its first line and ends with the last of its lines that is not blank.
pub proof fn law_blank_lines_end_no_cell(
    buffer: Buffer,
    start_row: u32,
    end_row: u32,
    r: PointRange,
    row: int,
)
    requires
        start_row <= end_row < buffer.lines@.len() <= u32::MAX,
        call_ensures(Buffer::cell_range, (&buffer, start_row, end_row), r),
    ensures
        r.start == (Point { row: start_row, column: 0 }),
        start_row <= r.end.row <= end_row,
        r.end.row < row <= end_row ==> is_blank(buffer.lines@[row].text@),
        r.end.row > start_row ==> !is_blank(buffer.lines@[r.end.row as int].text@),
        r.end.column == byte_len(buffer.lines@[r.end.row as int].text@) as u32,
{
    lemma_last_row_with_text(buffer.lines@, start_row as int, end_row as int, row);
}

proof fn lemma_last_row_with_text(lines: Seq<Line>, start_row: int, end_row: int, row: int)
    requires
        0 <= start_row <= end_row < lines.len(),
    ensures
        ({
            let last: int = last_row_with_text(lines, start_row, end_row);
            &&& start_row <= last <= end_row
            &&& last < row <= end_row ==> is_blank(lines[row].text@)
            &&& last > start_row ==> !is_blank(lines[last].text@)
        }),
    decreases end_row - start_row,
{
    if end_row > start_row {
        lemma_last_row_with_text(lines, start_row, end_row - 1, row);
    }
}

} // verus!
