//! What is to be checked, as the user edits it.
//!
//! The list is edited line by line, so that it can be pasted as a whole. Beside
//! it stands the last result for each target, with a search: with some dozens of
//! targets those in trouble have to be found at once.

use vstd::prelude::*;
use vstd::string::StringExecFns;
use crate::model::{
    check_at, check_views, lemma_check_at, opt_text, CheckView, Report, Status,
};
use crate::scan::{
    after_text, contains, has_text, lines_of, since_text, texts, trim, trimmed,
};
use crate::targets::{
    accepted, all_cleaned, default_lines, list_text, no_dot_at_end, parsed, rejected,
    target_views, Target, TargetList, TargetView, MAX,
};
use crate::text::{chars_of, dec, decimal, lower, lowercased, same};
use super::theme;

verus! {

/// The state of the editor between frames.
#[derive(Debug)]
pub struct Editor {
    /// The text of the input field. It lives apart from the list: what is half
    /// written must not break anything.
    pub text: String,
    pub search: String,
    pub message: Option<String>,
    pub failed: bool,
    /// The lines that were not understood when the list was last applied.
    pub rejected: Vec<String>,
}

#[verifier::ext_equal]
pub struct EditorView {
    pub text: Seq<char>,
    pub search: Seq<char>,
    pub message: Option<Seq<char>>,
    pub failed: bool,
    pub rejected: Seq<Seq<char>>,
}

impl View for Editor {
    type V = EditorView;

    open spec fn view(&self) -> EditorView {
        EditorView {
            text: self.text@,
            search: self.search@,
            message: opt_text(self.message),
            failed: self.failed,
            rejected: texts(self.rejected@),
        }
    }
}

/// What the tab asks for outside of itself.
#[derive(Debug)]
pub enum Action {
    Nothing,
    /// The list has changed: take it over and check again.
    Apply(TargetList),
}

/// The lines of a text that are neither targets nor blank.
pub open spec fn refused(text: Seq<char>) -> Seq<Seq<char>> {
    rejected(all_cleaned(lines_of(text)), lines_of(text))
}

impl Editor {
    pub fn new(list: &TargetList) -> (r: Self)
        ensures
            r@ == (EditorView {
                text: list_text(list@),
                search: Seq::empty(),
                message: None,
                failed: false,
                rejected: Seq::empty(),
            }),
    {
        let r = Editor {
            text: list.to_text(),
            search: String::new(),
            message: None,
            failed: false,
            rejected: Vec::new(),
        };
        assert(texts(r.rejected@) =~= Seq::<Seq<char>>::empty());
        r
    }

    /// Applies what is written. The list goes back into the field in the form in
    /// which it was understood, so that applying it again gives the same list,
    /// unless a target ends in a dot. A list without targets is not applied.
    pub fn submit(&mut self) -> (r: Action)
        ensures
            ({
                let was = old(self)@;
                let list = parsed(was.text);
                if list.len() == 0 {
                    &&& r is Nothing
                    &&& final(self)@ == (EditorView {
                        rejected: refused(was.text),
                        message: Some("Список пуст — проверять нечего."@),
                        failed: true,
                        ..was
                    })
                } else {
                    &&& r matches Action::Apply(l) && l@ == list
                    &&& final(self)@ == (EditorView {
                        rejected: refused(was.text),
                        text: list_text(list),
                        ..was
                    })
                    &&& no_dot_at_end(list) ==> parsed(final(self)@.text) == list && refused(
                        final(self)@.text,
                    ).len() == 0
                }
            }),
    {
        let (list, refused) = TargetList::parse(self.text.as_str());
        self.rejected = refused;
        if list.is_empty() {
            self.message = Some("Список пуст — проверять нечего.".to_owned());
            self.failed = true;
            return Action::Nothing;
        }
        self.text = list.to_text();
        Action::Apply(list)
    }

    /// Says what became of saving the list that was applied.
    pub fn saved(&mut self, outcome: &Result<String, String>)
        ensures
            final(self)@ == (match *outcome {
                Ok(path) => EditorView {
                    message: Some("Сохранено: "@ + path@),
                    failed: false,
                    ..old(self)@
                },
                Err(e) => EditorView {
                    message: Some("Список принят, но не сохранён: "@ + e@),
                    failed: true,
                    ..old(self)@
                },
            }),
    {
        match outcome {
            Ok(path) => {
                self.message = Some(String::from_str("Сохранено: ").concat(path.as_str()));
                self.failed = false;
            },
            Err(e) => {
                self.message = Some(
                    String::from_str("Список принят, но не сохранён: ").concat(e.as_str()),
                );
                self.failed = true;
            },
        }
    }

    /// Puts the default list into the field. It still has to be applied.
    pub fn restore(&mut self)
        ensures
            final(self)@ == (EditorView {
                text: list_text(accepted(all_cleaned(default_lines()))),
                rejected: Seq::empty(),
                message: Some("Список возвращён к стандартному. Нажмите «Применить»."@),
                failed: false,
                ..old(self)@
            }),
    {
        self.text = TargetList::default().to_text();
        self.rejected = Vec::new();
        self.message = Some("Список возвращён к стандартному. Нажмите «Применить».".to_owned());
        self.failed = false;
        assert(texts(self.rejected@) =~= Seq::<Seq<char>>::empty());
    }

    /// How many targets are written, in words.
    pub fn count(&self) -> (r: String)
        ensures
            r@ == "Целей в списке: "@ + dec(parsed(self@.text).len()) + " (не больше "@ + dec(
                MAX as nat,
            ) + ")"@,
    {
        let list = TargetList::parse(self.text.as_str()).0;
        let n: usize = list.items().len();
        String::from_str("Целей в списке: ").concat(decimal(n as u128).as_str()).concat(
            " (не больше ",
        ).concat(decimal(MAX as u128).as_str()).concat(")")
    }

    /// The colour of the message.
    pub fn message_color(&self) -> (r: u32)
        ensures
            r == (if self.failed {
                theme::WARN
            } else {
                theme::OK
            }),
    {
        if self.failed {
            theme::WARN
        } else {
            theme::OK
        }
    }

    /// The rows of the table: the targets in the field that the search finds,
    /// each with its last result.
    pub fn rows(&self, report: &Report) -> (r: Vec<Row>)
        ensures
            row_views(r@) == rows_of(
                parsed(self@.text),
                lowercased(trimmed(self@.search)),
                report@.checks,
            ),
    {
        let list = TargetList::parse(self.text.as_str()).0;
        let needle = lower(trim(self.search.as_str()).as_str());
        let items = list.items();
        let ghost all = target_views(items@);
        let mut out: Vec<Row> = Vec::new();
        let mut i: usize = 0;
        proof {
            assert(all.take(0) =~= Seq::<TargetView>::empty());
            assert(row_views(out@) =~= Seq::<RowView>::empty());
        }
        while i < items.len()
            invariant
                i <= items@.len(),
                all == target_views(items@),
                row_views(out@) == rows_of(all.take(i as int), needle@, report@.checks),
            decreases items@.len() - i,
        {
            proof {
                assert(all.take(i + 1).drop_last() =~= all.take(i as int));
                assert(all.take(i + 1).last() == items@[i as int]@);
            }
            let target = &items[i];
            if found(target.value.as_str(), needle.as_str()) {
                let ghost was = out@;
                out.push(row(target, report));
                assert(row_views(out@) =~= row_views(was).push(
                    row_of(target@, report@.checks),
                ));
            }
            i += 1;
        }
        assert(all.take(i as int) =~= all);
        out
    }
}

/// A row of the table of results.
#[derive(Debug)]
pub struct Row {
    pub value: String,
    pub kind: &'static str,
    pub status: Status,
    /// The mark of the status and the result in words.
    pub result: String,
}

#[verifier::ext_equal]
pub struct RowView {
    pub value: Seq<char>,
    pub kind: Seq<char>,
    pub status: Status,
    pub result: Seq<char>,
}

impl View for Row {
    type V = RowView;

    open spec fn view(&self) -> RowView {
        RowView {
            value: self.value@,
            kind: self.kind@,
            status: self.status,
            result: self.result@,
        }
    }
}

pub open spec fn row_views(rows: Seq<Row>) -> Seq<RowView> {
    rows.map_values(|r: Row| r@)
}

/// The identifier of the check of a target.
pub open spec fn check_id(value: Seq<char>) -> Seq<char> {
    "l7.target."@ + value
}

pub open spec fn marked(status: Status, words: Seq<char>) -> Seq<char> {
    "["@ + status.glyph_text() + "] "@ + words
}

/// The row of a target. The result stands in the heading of its check, behind
/// the last dash.
pub open spec fn row_of(target: TargetView, checks: Seq<CheckView>) -> RowView {
    let i = check_at(checks, check_id(target.value));
    let (status, words) = if i < checks.len() {
        (checks[i].status, after_text(checks[i].title, " — "@))
    } else {
        (Status::Pending, "ещё не проверялось"@)
    };
    RowView {
        value: target.value,
        kind: target.kind.title_text(),
        status,
        result: marked(status, words),
    }
}

/// Whether a search finds a target; an empty search finds all.
pub open spec fn finds(value: Seq<char>, needle: Seq<char>) -> bool {
    needle.len() == 0 || has_text(lowercased(value), needle)
}

fn found(value: &str, needle: &str) -> (r: bool)
    ensures
        r == finds(value@, needle@),
{
    chars_of(needle).len() == 0 || contains(lower(value).as_str(), needle)
}

/// The rows of the targets that a search finds, in their order.
pub open spec fn rows_of(
    list: Seq<TargetView>,
    needle: Seq<char>,
    checks: Seq<CheckView>,
) -> Seq<RowView>
    decreases list.len(),
{
    if list.len() == 0 {
        Seq::empty()
    } else {
        let before = rows_of(list.drop_last(), needle, checks);
        if finds(list.last().value, needle) {
            before.push(row_of(list.last(), checks))
        } else {
            before
        }
    }
}

fn row(target: &Target, report: &Report) -> (r: Row)
    ensures
        r@ == row_of(target@, report@.checks),
{
    let id = String::from_str("l7.target.").concat(target.value.as_str());
    let ghost checks = report@.checks;
    let mut i: usize = 0;
    while i < report.checks.len() && !same(report.checks[i].id.as_str(), id.as_str())
        invariant
            i <= report.checks@.len(),
            checks == check_views(report.checks@),
            id@ == check_id(target@.value),
            forall|j: int| 0 <= j < i ==> (#[trigger] checks[j]).id != id@,
        decreases report.checks@.len() - i,
    {
        assert(checks[i as int] == report.checks@[i as int]@);
        i += 1;
    }
    proof {
        if i < report.checks@.len() {
            assert(checks[i as int] == report.checks@[i as int]@);
        }
        lemma_check_at(checks, id@, i as int);
    }
    let (status, words) = if i < report.checks.len() {
        (report.checks[i].status, since_text(report.checks[i].title.as_str(), " — "))
    } else {
        (Status::Pending, "ещё не проверялось".to_owned())
    };
    Row {
        value: target.value.clone(),
        kind: target.kind.title(),
        status,
        result: String::from_str("[").concat(status.glyph()).concat("] ").concat(words.as_str()),
    }
}

/// Without a search every target has its row.
pub proof fn every_target_has_a_row(list: Seq<TargetView>, checks: Seq<CheckView>)
    ensures
        rows_of(list, Seq::empty(), checks).len() == list.len(),
        forall|i: int|
            0 <= i < list.len() ==> #[trigger] rows_of(list, Seq::empty(), checks)[i] == row_of(
                list[i],
                checks,
            ),
    decreases list.len(),
{
    if list.len() > 0 {
        every_target_has_a_row(list.drop_last(), checks);
        let before = rows_of(list.drop_last(), Seq::empty(), checks);
        assert forall|i: int| 0 <= i < list.len() implies #[trigger] rows_of(
            list,
            Seq::empty(),
            checks,
        )[i] == row_of(list[i], checks) by {
            if i < list.len() - 1 {
                assert(before[i] == row_of(list.drop_last()[i], checks));
            }
        }
    }
}

/// A row shows the first check of its target: its status, and what follows the
/// last dash of its title. A target without a check waits.
pub proof fn a_row_shows_its_check(target: TargetView, checks: Seq<CheckView>, i: int)
    requires
        0 <= i < checks.len(),
        checks[i].id == "l7.target."@ + target.value,
        forall|j: int| 0 <= j < i ==> (#[trigger] checks[j]).id != "l7.target."@ + target.value,
    ensures
        row_of(target, checks).value == target.value,
        row_of(target, checks).status == checks[i].status,
        row_of(target, checks).result == "["@ + checks[i].status.glyph_text() + "] "@ + after_text(
            checks[i].title,
            " — "@,
        ),
{
    lemma_check_at(checks, "l7.target."@ + target.value, i);
}

/// A target that no check belongs to has not been checked yet.
pub proof fn a_target_without_a_check_waits(target: TargetView, checks: Seq<CheckView>)
    requires
        forall|j: int|
            0 <= j < checks.len() ==> (#[trigger] checks[j]).id != "l7.target."@ + target.value,
    ensures
        row_of(target, checks).status is Pending,
        row_of(target, checks).result == "["@ + Status::Pending.glyph_text() + "] "@
            + "ещё не проверялось"@,
{
    lemma_check_at(checks, "l7.target."@ + target.value, checks.len() as int);
}

/// The rows are those of the targets whose names hold what is searched for, in
/// their order.
pub proof fn a_search_keeps_what_it_finds(
    list: Seq<TargetView>,
    needle: Seq<char>,
    checks: Seq<CheckView>,
)
    ensures
        rows_of(list, needle, checks) == list.filter(
            |t: TargetView| needle.len() == 0 || has_text(lowercased(t.value), needle),
        ).map_values(|t: TargetView| row_of(t, checks)),
    decreases list.len(),
{
    reveal(Seq::filter);
    if list.len() > 0 {
        a_search_keeps_what_it_finds(list.drop_last(), needle, checks);
    }
    assert(rows_of(list, needle, checks) =~= list.filter(
        |t: TargetView| needle.len() == 0 || has_text(lowercased(t.value), needle),
    ).map_values(|t: TargetView| row_of(t, checks)));
}

} // verus!
