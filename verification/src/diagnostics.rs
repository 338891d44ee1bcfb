//! What is wrong with the graph as it stands, and the list that says so.

use crate::cell::Cell;
use crate::model::node;
use crate::text;
use vstd::prelude::*;

verus! {

/// How many diagnostic rows are on screen at once. The list is sorted
/// worst-first, so a plain prefix window shows the rows worth reading first.
pub const DIAGNOSTIC_ROWS: usize = 6;

/// How bad it is. An `Error` keeps the graph from running.
#[derive(Clone, Copy, Debug, PartialEq, Eq, Structural)]
pub enum Severity {
    Error,
    Warning,
    Note,
}

/// One thing that is wrong with the graph, and the node it is about.
#[derive(Debug)]
pub struct Diagnostic {
    pub severity: Severity,
    pub message: String,
    pub node: Option<node::Id>,
}

/// Everything wrong with the graph as it stands.
pub struct Diagnostics(pub Vec<Diagnostic>);

/// How many of `list` are of the given severity.
pub open spec fn count_of(list: Seq<Diagnostic>, severity: Severity) -> nat {
    list.filter(|diagnostic: Diagnostic| diagnostic.severity == severity).len()
}

impl Diagnostics {
    /// How many are of the given severity.
    pub fn count(&self, severity: Severity) -> (count: usize)
        ensures
            count == count_of(self.0@, severity),
    {
        let ghost counted = |diagnostic: Diagnostic| diagnostic.severity == severity;
        let mut count: usize = 0;
        let mut i: usize = 0;
        while i < self.0.len()
            invariant
                i <= self.0.len(),
                counted == (|diagnostic: Diagnostic| diagnostic.severity == severity),
                count == self.0@.take(i as int).filter(counted).len(),
                count <= i,
            decreases self.0.len() - i,
        {
            proof {
                assert(self.0@.take(i + 1) == self.0@.take(i as int).push(self.0@[i as int]));
                self.0@.take(i as int).lemma_filter_push(self.0@[i as int], counted);
            }
            if self.0[i].severity == severity {
                count = count + 1;
            }
            i = i + 1;
        }
        assert(self.0@.take(i as int) == self.0@);
        count
    }

    /// Whether a run may not start. The definition of `Error` and nothing more.
    pub fn blocking(&self) -> (res: bool)
        ensures
            res == (count_of(self.0@, Severity::Error) > 0),
    {
        self.count(Severity::Error) > 0
    }
}

/// Something blocks a run exactly if one of the diagnostics is an error.
pub proof fn law_blocking_is_an_error(list: Seq<Diagnostic>)
    ensures
        count_of(list, Severity::Error) > 0 <==> exists|i: int|
            0 <= i < list.len() && (#[trigger] list[i]).severity == Severity::Error,
    decreases list.len(),
{
    let errors = |diagnostic: Diagnostic| diagnostic.severity == Severity::Error;
    if list.len() > 0 {
        let shorter = list.drop_last();
        law_blocking_is_an_error(shorter);
        assert(list =~= shorter.push(list.last()));
        shorter.lemma_filter_push(list.last(), errors);
        if exists|i: int| 0 <= i < shorter.len() && (#[trigger] shorter[i]).severity
            == Severity::Error {
            let i = choose|i: int|
                0 <= i < shorter.len() && (#[trigger] shorter[i]).severity == Severity::Error;
            assert(list[i].severity == Severity::Error);
        }
        if exists|i: int| 0 <= i < list.len() && (#[trigger] list[i]).severity
            == Severity::Error {
            let i = choose|i: int|
                0 <= i < list.len() && (#[trigger] list[i]).severity == Severity::Error;
            if i < shorter.len() {
                assert(shorter[i].severity == Severity::Error);
            }
        }
        assert(list[list.len() - 1] == list.last());
    } else {
        reveal(Seq::filter);
    }
}

/// The sign each severity is drawn with.
pub struct Glyphs {
    pub error: String,
    pub warning: String,
    pub note: String,
}

impl Glyphs {
    /// The sign of a severity.
    pub open spec fn sign(self, severity: Severity) -> Seq<char> {
        match severity {
            Severity::Error => self.error@,
            Severity::Warning => self.warning@,
            Severity::Note => self.note@,
        }
    }

    fn of(&self, severity: Severity) -> (glyph: &str)
        ensures
            glyph@ == self.sign(severity),
    {
        match severity {
            Severity::Error => self.error.as_str(),
            Severity::Warning => self.warning.as_str(),
            Severity::Note => self.note.as_str(),
        }
    }
}

/// What one diagnostic of a severity is called.
pub open spec fn noun(severity: Severity) -> Seq<char> {
    match severity {
        Severity::Error => "error"@,
        Severity::Warning => "warning"@,
        Severity::Note => "note"@,
    }
}

/// What is said of the diagnostics of one severity: its sign, how many there
/// are, and what they are called. Nothing where there are none.
pub open spec fn tally_of(list: Seq<Diagnostic>, glyphs: Glyphs, severity: Severity) -> Seq<
    (Severity, Seq<char>),
> {
    let count = count_of(list, severity);
    if count == 0 {
        Seq::empty()
    } else {
        seq![
            (
                severity,
                glyphs.sign(severity) + " "@ + text::decimal_of(count) + " "@ + noun(severity) + if count
                    == 1 {
                    Seq::empty()
                } else {
                    "s"@
                },
            ),
        ]
    }
}

/// What the heading says, worst first, leaving out what is not there.
pub open spec fn tallies_of(list: Seq<Diagnostic>, glyphs: Glyphs) -> Seq<(Severity, Seq<char>)> {
    tally_of(list, glyphs, Severity::Error) + tally_of(list, glyphs, Severity::Warning) + tally_of(
        list,
        glyphs,
        Severity::Note,
    )
}

/// The values of a list of tallies.
pub open spec fn tally_views(tallies: Seq<(Severity, String)>) -> Seq<(Severity, Seq<char>)> {
    tallies.map_values(|tally: (Severity, String)| (tally.0, tally.1@))
}

fn push_tally(
    tallies: &mut Vec<(Severity, String)>,
    diagnostics: &Diagnostics,
    glyphs: &Glyphs,
    severity: Severity,
)
    ensures
        tally_views(final(tallies)@) == tally_views(old(tallies)@) + tally_of(
            diagnostics.0@,
            *glyphs,
            severity,
        ),
{
    let count = diagnostics.count(severity);
    let ghost before = tally_views(tallies@);
    if count > 0 {
        let word = match severity {
            Severity::Error => "error",
            Severity::Warning => "warning",
            Severity::Note => "note",
        };
        let line = glyphs.of(severity).to_owned().concat(" ").concat(
            text::decimal(count as u64).as_str(),
        ).concat(" ").concat(word);
        let line = if count == 1 {
            line
        } else {
            line.concat("s")
        };
        let ghost said = line@;
        assert(tally_of(diagnostics.0@, *glyphs, severity) =~= seq![(severity, said)]);
        tallies.push((severity, line));
        assert(tally_views(tallies@) =~= before.push((severity, said)));
    }
    assert(tally_views(tallies@) =~= before + tally_of(diagnostics.0@, *glyphs, severity));
}

/// The tallies the heading shows, worst first, leaving out what is not there.
/// Each carries its own severity so the heading can paint it.
pub fn diagnostics_tallies(
    diagnostics: &Diagnostics,
    glyphs: &Glyphs,
) -> (tallies: Vec<(Severity, String)>)
    ensures
        tally_views(tallies@) == tallies_of(diagnostics.0@, *glyphs),
{
    let mut tallies: Vec<(Severity, String)> = Vec::new();
    push_tally(&mut tallies, diagnostics, glyphs, Severity::Error);
    push_tally(&mut tallies, diagnostics, glyphs, Severity::Warning);
    push_tally(&mut tallies, diagnostics, glyphs, Severity::Note);
    assert(tally_views(tallies@) =~= tallies_of(diagnostics.0@, *glyphs));
    tallies
}

/// The heading of the list, before its tallies.
pub open spec fn heading_for(tallies: nat, open: bool) -> Seq<char> {
    if tallies == 0 {
        "No problems found"@
    } else if open {
        "▾ "@
    } else {
        "▸ "@
    }
}

/// The heading of the list, before its tallies. It stands whether or not there
/// is anything under it, and can only be folded when there is something to fold.
pub fn heading(tallies: &Vec<(Severity, String)>, open: bool) -> (text: &'static str)
    ensures
        text@ == heading_for(tallies@.len(), open),
{
    if tallies.len() == 0 {
        "No problems found"
    } else if open {
        "▾ "
    } else {
        "▸ "
    }
}

/// What stands before the message of a row: the sign, and the cell it is about
/// where there is one.
pub open spec fn place_spelling(sign: Seq<char>, cell: Option<Cell>) -> Seq<char> {
    match cell {
        Some(cell) => sign + " ("@ + text::signed_decimal_of(cell.x as int) + ", "@
            + text::signed_decimal_of(cell.y as int) + ", "@ + text::signed_decimal_of(
            cell.z as int,
        ) + ")"@,
        None => sign,
    }
}

fn place_text(sign: &str, cell: Option<Cell>) -> (text: String)
    ensures
        text@ == place_spelling(sign@, cell),
{
    match cell {
        Some(cell) => sign.to_owned().concat(" (").concat(
            text::signed_decimal(cell.x).as_str(),
        ).concat(", ").concat(text::signed_decimal(cell.y).as_str()).concat(", ").concat(
            text::signed_decimal(cell.z).as_str(),
        ).concat(")"),
        None => sign.to_owned(),
    }
}

/// One line of the list as it is drawn.
#[derive(Debug)]
pub enum DiagnosticLine {
    /// A row: what stands before the message, the message, and where a click on
    /// it goes. A row without such a place is no button.
    Row { severity: Severity, place: String, message: String, target: Option<Cell> },
    /// A count of the rows that do not fit.
    More(String),
}

/// The mathematical value of a [`DiagnosticLine`].
pub enum DiagnosticLineView {
    Row { severity: Severity, place: Seq<char>, message: Seq<char>, target: Option<Cell> },
    More(Seq<char>),
}

impl View for DiagnosticLine {
    type V = DiagnosticLineView;

    open spec fn view(&self) -> DiagnosticLineView {
        match self {
            DiagnosticLine::Row { severity, place, message, target } => DiagnosticLineView::Row {
                severity: *severity,
                place: place@,
                message: message@,
                target: *target,
            },
            DiagnosticLine::More(text) => DiagnosticLineView::More(text@),
        }
    }
}

/// The values of a list of lines.
pub open spec fn line_views(lines: Seq<DiagnosticLine>) -> Seq<DiagnosticLineView> {
    lines.map_values(|line: DiagnosticLine| line@)
}

/// The line of one diagnostic, which is about `cell`.
pub open spec fn line_of(
    diagnostic: Diagnostic,
    cell: Option<Cell>,
    glyphs: Glyphs,
) -> DiagnosticLineView {
    DiagnosticLineView::Row {
        severity: diagnostic.severity,
        place: place_spelling(glyphs.sign(diagnostic.severity), cell),
        message: diagnostic.message@,
        target: cell,
    }
}

/// How many rows are shown.
pub open spec fn shown_rows(len: nat, open: bool) -> nat {
    if !open {
        0
    } else if len < DIAGNOSTIC_ROWS {
        len
    } else {
        DIAGNOSTIC_ROWS as nat
    }
}

/// The lines of the list: the first rows, and a count of those that do not fit.
/// None while the list is folded.
pub open spec fn lines_for(
    list: Seq<Diagnostic>,
    cells: Seq<Option<Cell>>,
    glyphs: Glyphs,
    open: bool,
) -> Seq<DiagnosticLineView> {
    let shown = shown_rows(list.len(), open);
    Seq::new(shown, |i: int| line_of(list[i], cells[i], glyphs)) + if open && list.len() > shown {
        seq![
            DiagnosticLineView::More("… "@ + text::decimal_of((list.len() - shown) as nat) + " more"@),
        ]
    } else {
        Seq::empty()
    }
}

/// The lines of the list: `cells` are the cells the diagnostics are about. What
/// does not fit is *stated*, never clipped.
pub fn diagnostic_lines(
    diagnostics: &Diagnostics,
    cells: &Vec<Option<Cell>>,
    glyphs: &Glyphs,
    open: bool,
) -> (lines: Vec<DiagnosticLine>)
    requires
        cells@.len() == diagnostics.0@.len(),
    ensures
        line_views(lines@) == lines_for(diagnostics.0@, cells@, *glyphs, open),
{
    let len: usize = diagnostics.0.len();
    let shown: usize = if !open {
        0
    } else if len < DIAGNOSTIC_ROWS {
        len
    } else {
        DIAGNOSTIC_ROWS
    };
    let mut lines: Vec<DiagnosticLine> = Vec::new();
    let mut i: usize = 0;
    while i < shown
        invariant
            i <= shown <= diagnostics.0@.len(),
            cells@.len() == diagnostics.0@.len(),
            line_views(lines@) == Seq::new(
                i as nat,
                |i: int| line_of(diagnostics.0@[i], cells@[i], *glyphs),
            ),
        decreases shown - i,
    {
        let diagnostic = &diagnostics.0[i];
        let ghost before = line_views(lines@);
        let line = DiagnosticLine::Row {
            severity: diagnostic.severity,
            place: place_text(glyphs.of(diagnostic.severity), cells[i]),
            message: diagnostic.message.clone(),
            target: cells[i],
        };
        assert(line@ == line_of(*diagnostic, cells@[i as int], *glyphs));
        let ghost said = line@;
        lines.push(line);
        assert(line_views(lines@) =~= before.push(said));
        i = i + 1;
    }
    let ghost rows = line_views(lines@);
    if open && len > shown {
        let more = "… ".to_owned().concat(text::decimal((len - shown) as u64).as_str()).concat(
            " more",
        );
        lines.push(DiagnosticLine::More(more));
    }
    assert(line_views(lines@) =~= lines_for(diagnostics.0@, cells@, *glyphs, open));
    lines
}

/// Nothing is swallowed: the rows shown and the rows counted are all there are,
/// while the list is open.
pub proof fn law_every_row_is_shown_or_counted(len: nat)
    ensures
        shown_rows(len, true) <= DIAGNOSTIC_ROWS,
        shown_rows(len, true) <= len,
        shown_rows(len, true) < len ==> shown_rows(len, true) == DIAGNOSTIC_ROWS,
        shown_rows(len, false) == 0,
{
}

/// One more diagnostic is one more of its own severity, and none of the others.
pub proof fn law_each_counts_once(list: Seq<Diagnostic>, diagnostic: Diagnostic, severity: Severity)
    ensures
        count_of(Seq::empty(), severity) == 0,
        count_of(list.push(diagnostic), severity) == count_of(list, severity) + if diagnostic.severity
            == severity {
            1int
        } else {
            0
        },
{
    reveal(Seq::filter);
    let counted = |diagnostic: Diagnostic| diagnostic.severity == severity;
    list.lemma_filter_push(diagnostic, counted);
}

/// The heading counts each severity for itself, the worst first, and passes over
/// what is not there. What is said of one is its sign, how many there are, and its
/// name, which is a plural unless there is but one.
pub proof fn law_what_the_heading_says(list: Seq<Diagnostic>, glyphs: Glyphs, severity: Severity)
    ensures
        count_of(list, severity) == 0 ==> tally_of(list, glyphs, severity).len() == 0,
        count_of(list, severity) > 0 ==> {
            &&& tally_of(list, glyphs, severity).len() == 1
            &&& tally_of(list, glyphs, severity)[0].0 == severity
        },
        count_of(list, severity) == 1 ==> tally_of(list, glyphs, severity)[0].1 == glyphs.sign(
            severity,
        ) + seq![' ', '1', ' '] + noun(severity),
        count_of(list, severity) > 1 ==> tally_of(list, glyphs, severity)[0].1 == glyphs.sign(
            severity,
        ) + seq![' '] + text::decimal_of(count_of(list, severity)) + seq![' '] + noun(severity)
            + seq!['s'],
        forall|i: int, j: int|
            0 <= i < j < tallies_of(list, glyphs).len() ==> {
                &&& (#[trigger] tallies_of(list, glyphs)[i]).0 != (#[trigger] tallies_of(
                    list,
                    glyphs,
                )[j]).0
                &&& tallies_of(list, glyphs)[j].0 != Severity::Error
                &&& tallies_of(list, glyphs)[i].0 != Severity::Note
            },
        (exists|i: int|
            0 <= i < tallies_of(list, glyphs).len() && (#[trigger] tallies_of(list, glyphs)[i]).0
                == severity) <==> count_of(list, severity) > 0,
        glyphs.sign(Severity::Error) == glyphs.error@,
        glyphs.sign(Severity::Warning) == glyphs.warning@,
        glyphs.sign(Severity::Note) == glyphs.note@,
        noun(Severity::Error)[0] == 'e',
        noun(Severity::Warning)[0] == 'w',
        noun(Severity::Note)[0] == 'n',
{
    reveal_strlit(" ");
    reveal_strlit("s");
    reveal_strlit("error");
    reveal_strlit("warning");
    reveal_strlit("note");
    assert(" "@ =~= seq![' ']);
    assert("s"@ =~= seq!['s']);
    let all = tallies_of(list, glyphs);
    let errors = tally_of(list, glyphs, Severity::Error);
    let warnings = tally_of(list, glyphs, Severity::Warning);
    let notes = tally_of(list, glyphs, Severity::Note);
    assert(all == errors + warnings + notes);
    if count_of(list, severity) == 1 {
        assert(text::decimal_of(1) =~= seq!['1']);
        assert(tally_of(list, glyphs, severity)[0].1 =~= glyphs.sign(severity) + seq![' ', '1', ' ']
            + noun(severity));
    }
    if count_of(list, severity) > 0 {
        let at: int = match severity {
            Severity::Error => 0,
            Severity::Warning => errors.len() as int,
            Severity::Note => (errors.len() + warnings.len()) as int,
        };
        assert(all[at].0 == severity);
    }
}

/// While the list is open every diagnostic has its row or is counted: the first
/// rows stand in the order of the list, each with its own severity, its own message
/// and its own place, which is where a click on it goes; and where some do not fit,
/// one last line says how many. While it is folded there is nothing.
pub proof fn law_what_the_list_says(
    list: Seq<Diagnostic>,
    cells: Seq<Option<Cell>>,
    glyphs: Glyphs,
    open: bool,
)
    requires
        cells.len() == list.len(),
    ensures
        !open ==> lines_for(list, cells, glyphs, open).len() == 0,
        open && list.len() <= DIAGNOSTIC_ROWS ==> lines_for(list, cells, glyphs, open).len()
            == list.len(),
        open && list.len() > DIAGNOSTIC_ROWS ==> {
            let lines = lines_for(list, cells, glyphs, open);
            &&& lines.len() == DIAGNOSTIC_ROWS + 1
            &&& lines.last() == DiagnosticLineView::More(
                seq!['…', ' '] + text::decimal_of((list.len() - DIAGNOSTIC_ROWS) as nat) + seq![
                    ' ',
                    'm',
                    'o',
                    'r',
                    'e',
                ],
            )
        },
        open ==> forall|i: int|
            0 <= i < list.len() && i < DIAGNOSTIC_ROWS ==> {
                &&& #[trigger] lines_for(list, cells, glyphs, open)[i] matches DiagnosticLineView::Row {
                    severity,
                    place,
                    message,
                    target,
                }
                &&& severity == list[i].severity
                &&& message == list[i].message@
                &&& target == cells[i]
                &&& cells[i] is None ==> place == glyphs.sign(list[i].severity)
                &&& cells[i] matches Some(cell) ==> place == glyphs.sign(list[i].severity) + seq![
                    ' ',
                    '(',
                ] + text::signed_decimal_of(cell.x as int) + seq![',', ' ']
                    + text::signed_decimal_of(cell.y as int) + seq![',', ' ']
                    + text::signed_decimal_of(cell.z as int) + seq![')']
            },
{
    reveal_strlit("… ");
    reveal_strlit(" more");
    reveal_strlit(" (");
    reveal_strlit(", ");
    reveal_strlit(")");
    assert("… "@ =~= seq!['…', ' ']);
    assert(" more"@ =~= seq![' ', 'm', 'o', 'r', 'e']);
    assert(" ("@ =~= seq![' ', '(']);
    assert(", "@ =~= seq![',', ' ']);
    assert(")"@ =~= seq![')']);
}

/// The heading of an empty list says that there is nothing wrong, and that of any
/// other list shows whether it is folded.
pub proof fn law_the_heading_shows_the_fold(tallies: nat)
    requires
        tallies > 0,
    ensures
        heading_for(0, true) == heading_for(0, false),
        heading_for(tallies, true) != heading_for(tallies, false),
        heading_for(tallies, true) != heading_for(0, true),
        heading_for(tallies, false) != heading_for(0, false),
        heading_for(tallies, true)[0] == '▾',
        heading_for(tallies, false)[0] == '▸',
{
    reveal_strlit("▾ ");
    reveal_strlit("▸ ");
    reveal_strlit("No problems found");
    assert("▾ "@[0] != "▸ "@[0]);
    assert("▾ "@.len() != "No problems found"@.len());
    assert("▸ "@.len() != "No problems found"@.len());
}

} // verus!
