//! What a run does with a delta: what it announces, and what it changes in
//! the zone and in which order.

use vstd::prelude::*;
use vstd::string::StringExecFns;
use crate::delta::{content_text, describe_content, DeltaModel, DnsRecordDelta};
use crate::record::{
    ContentModel, DesiredModel, DesiredRecord, ExistingModel, ExistingRecord, RecordContent,
};
use crate::text::same_text;

verus! {

/// How far a run may go.
#[derive(Clone, Copy, Debug, PartialEq, Eq)]
pub enum ChangeControl {
    /// Reads the zone and announces the changes.
    Plan,
    /// Announces the changes against an empty zone, without a word to the
    /// provider.
    Dummy,
    /// Reads the zone, announces the changes and carries them out.
    Commit,
}

/// The change control that the setting `setting` asks for: `dummy` and
/// `commit` are understood, anything else and no setting mean a plan.
pub open spec fn change_control_of(setting: Option<Seq<char>>) -> ChangeControl {
    match setting {
        Some(word) => if word == "dummy"@ {
            ChangeControl::Dummy
        } else if word == "commit"@ {
            ChangeControl::Commit
        } else {
            ChangeControl::Plan
        },
        None => ChangeControl::Plan,
    }
}

impl ChangeControl {
    /// The change control that the setting `setting` asks for.
    pub fn from_setting(setting: Option<&str>) -> (control: ChangeControl)
        ensures
            control == change_control_of(
                match setting {
                    Some(word) => Some(word@),
                    None => None,
                },
            ),
    {
        match setting {
            Some(word) => if same_text(word, "dummy") {
                ChangeControl::Dummy
            } else if same_text(word, "commit") {
                ChangeControl::Commit
            } else {
                ChangeControl::Plan
            },
            None => ChangeControl::Plan,
        }
    }

    /// Whether the run asks the provider for the zone and its records.
    pub fn reads_zone(&self) -> (reads: bool)
        ensures
            reads == (*self != ChangeControl::Dummy),
    {
        match self {
            ChangeControl::Dummy => false,
            _ => true,
        }
    }

    /// Whether the run carries the changes out.
    pub fn commits(&self) -> (commits: bool)
        ensures
            commits == (*self == ChangeControl::Commit),
    {
        match self {
            ChangeControl::Commit => true,
            _ => false,
        }
    }
}

/// What a line of the report says of a record.
#[derive(Clone, Copy, Debug, PartialEq, Eq)]
pub enum Notice {
    WillAdd,
    WillDelete,
    Deleted,
    Added,
}

impl Notice {
    /// The words of the notice.
    pub open spec fn words(self) -> Seq<char> {
        match self {
            Notice::WillAdd => "will add"@,
            Notice::WillDelete => "will delete"@,
            Notice::Deleted => "deleted"@,
            Notice::Added => "added"@,
        }
    }

    /// The words of the notice.
    pub fn as_str(&self) -> (words: &'static str)
        ensures
            words@ == self.words(),
    {
        match self {
            Notice::WillAdd => "will add",
            Notice::WillDelete => "will delete",
            Notice::Deleted => "deleted",
            Notice::Added => "added",
        }
    }
}

/// The line of the report that says `notice` of the record `name` with the
/// content `content` in the zone `zone_domain`: the zone in brackets, the
/// notice and a colon, the name, and the content described.
pub open spec fn notice_text(
    zone_domain: Seq<char>,
    notice: Notice,
    name: Seq<char>,
    content: ContentModel,
) -> Seq<char> {
    "["@ + zone_domain + "] "@ + notice.words() + ": "@ + name + " "@ + content_text(content)
}

/// Writes the line of the report that says `notice` of a record.
pub fn notice_line(zone_domain: &str, notice: Notice, name: &str, content: &RecordContent) -> (line:
    String)
    ensures
        line@ == notice_text(zone_domain@, notice, name@, content@),
{
    let mut line = String::from_str("[");
    line.append(zone_domain);
    line.append("] ");
    line.append(notice.as_str());
    line.append(": ");
    line.append(name);
    line.append(" ");
    let described = describe_content(content);
    line.append(described.as_str());
    line
}

/// One thing that a run does.
#[derive(Clone, Debug, PartialEq, Eq)]
pub enum Step<'record> {
    /// Prints a line of the report.
    Print(String),
    /// Removes a record from the zone.
    Delete(&'record ExistingRecord),
    /// Creates a record in the zone.
    Create(&'record DesiredRecord),
}

/// A `Step` as a mathematical value.
pub enum StepModel {
    Print(Seq<char>),
    Delete(ExistingModel),
    Create(DesiredModel),
}

impl<'record> View for Step<'record> {
    type V = StepModel;

    open spec fn view(&self) -> StepModel {
        match *self {
            Step::Print(line) => StepModel::Print(line@),
            Step::Delete(record) => StepModel::Delete(record@),
            Step::Create(record) => StepModel::Create(record@),
        }
    }
}

impl<'record> DeepView for Step<'record> {
    type V = StepModel;

    open spec fn deep_view(&self) -> StepModel {
        self@
    }
}

/// The step that prints what `notice` says of a record to create.
pub open spec fn print_of_desired(
    zone_domain: Seq<char>,
    notice: Notice,
    record: DesiredModel,
) -> StepModel {
    StepModel::Print(notice_text(zone_domain, notice, record.name, record.content))
}

/// The step that prints what `notice` says of a record of the zone.
pub open spec fn print_of_existing(
    zone_domain: Seq<char>,
    notice: Notice,
    record: ExistingModel,
) -> StepModel {
    StepModel::Print(notice_text(zone_domain, notice, record.name, record.content))
}

/// What a run announces of `delta`: each record that it will add, then each
/// record that it will delete.
pub open spec fn announcements(zone_domain: Seq<char>, delta: DeltaModel) -> Seq<StepModel> {
    Seq::new(
        delta.added.len(),
        |i: int| print_of_desired(zone_domain, Notice::WillAdd, delta.added[i]),
    ) + Seq::new(
        delta.deleted.len(),
        |i: int| print_of_existing(zone_domain, Notice::WillDelete, delta.deleted[i]),
    )
}

/// The removals of `delta`: each record is removed, and a line then says so.
pub open spec fn removals(zone_domain: Seq<char>, delta: DeltaModel) -> Seq<StepModel> {
    Seq::new(
        2 * delta.deleted.len(),
        |i: int|
            if i % 2 == 0 {
                StepModel::Delete(delta.deleted[i / 2])
            } else {
                print_of_existing(zone_domain, Notice::Deleted, delta.deleted[i / 2])
            },
    )
}

/// The creations of `delta`: each record is created, and a line then says
/// so.
pub open spec fn creations(zone_domain: Seq<char>, delta: DeltaModel) -> Seq<StepModel> {
    Seq::new(
        2 * delta.added.len(),
        |i: int|
            if i % 2 == 0 {
                StepModel::Create(delta.added[i / 2])
            } else {
                print_of_desired(zone_domain, Notice::Added, delta.added[i / 2])
            },
    )
}

/// What a run does with `delta`, in order: it announces the changes, and
/// where it commits it carries them out, all removals before any creation.
pub open spec fn steps_of(zone_domain: Seq<char>, delta: DeltaModel, commit: bool) -> Seq<
    StepModel,
> {
    if commit {
        announcements(zone_domain, delta) + removals(zone_domain, delta) + creations(
            zone_domain,
            delta,
        )
    } else {
        announcements(zone_domain, delta)
    }
}

/// Lists what a run does with `delta` in the zone `zone_domain`, in order.
pub fn run_steps<'record>(zone_domain: &str, delta: &DnsRecordDelta<'record>, commit: bool) -> (steps:
    Vec<Step<'record>>)
    ensures
        steps.deep_view() == steps_of(zone_domain@, delta@, commit),
{
    let ghost zone = zone_domain@;
    let ghost model = delta@;
    let mut steps: Vec<Step<'record>> = Vec::new();

    let mut i: usize = 0;
    while i < delta.added.len()
        invariant
            i <= delta.added.len(),
            zone == zone_domain@,
            model == delta@,
            steps.deep_view() == Seq::new(
                i as nat,
                |k: int| print_of_desired(zone, Notice::WillAdd, model.added[k]),
            ),
        decreases delta.added.len() - i,
    {
        let record = delta.added[i];
        let ghost before = steps.deep_view();
        steps.push(
            Step::Print(
                notice_line(zone_domain, Notice::WillAdd, record.name.as_str(), &record.content),
            ),
        );
        assert(steps.deep_view() =~= before.push(
            print_of_desired(zone, Notice::WillAdd, model.added[i as int]),
        ));
        i += 1;
    }
    let ghost will_add = steps.deep_view();

    let mut i: usize = 0;
    while i < delta.deleted.len()
        invariant
            i <= delta.deleted.len(),
            zone == zone_domain@,
            model == delta@,
            steps.deep_view() == will_add + Seq::new(
                i as nat,
                |k: int| print_of_existing(zone, Notice::WillDelete, model.deleted[k]),
            ),
        decreases delta.deleted.len() - i,
    {
        let record = delta.deleted[i];
        let ghost before = steps.deep_view();
        steps.push(
            Step::Print(
                notice_line(
                    zone_domain,
                    Notice::WillDelete,
                    record.name.as_str(),
                    &record.content,
                ),
            ),
        );
        assert(steps.deep_view() =~= before.push(
            print_of_existing(zone, Notice::WillDelete, model.deleted[i as int]),
        ));
        i += 1;
    }
    assert(steps.deep_view() =~= announcements(zone, model));
    if !commit {
        return steps;
    }
    let ghost announced = steps.deep_view();

    let mut i: usize = 0;
    while i < delta.deleted.len()
        invariant
            i <= delta.deleted.len(),
            zone == zone_domain@,
            model == delta@,
            steps.deep_view() == announced + removals(zone, model).take(2 * i),
        decreases delta.deleted.len() - i,
    {
        let record = delta.deleted[i];
        let ghost before = steps.deep_view();
        steps.push(Step::Delete(record));
        steps.push(
            Step::Print(
                notice_line(zone_domain, Notice::Deleted, record.name.as_str(), &record.content),
            ),
        );
        assert(steps.deep_view() =~= before.push(StepModel::Delete(record@)).push(
            print_of_existing(zone, Notice::Deleted, record@),
        ));
        assert(removals(zone, model).take(2 * (i + 1)) =~= removals(zone, model).take(
            2 * i,
        ).push(StepModel::Delete(record@)).push(
            print_of_existing(zone, Notice::Deleted, record@),
        ));
        i += 1;
    }
    assert(removals(zone, model).take(2 * delta.deleted.len()) =~= removals(zone, model));
    let ghost removed = steps.deep_view();

    let mut i: usize = 0;
    while i < delta.added.len()
        invariant
            i <= delta.added.len(),
            zone == zone_domain@,
            model == delta@,
            steps.deep_view() == removed + creations(zone, model).take(2 * i),
        decreases delta.added.len() - i,
    {
        let record = delta.added[i];
        let ghost before = steps.deep_view();
        steps.push(Step::Create(record));
        steps.push(
            Step::Print(
                notice_line(zone_domain, Notice::Added, record.name.as_str(), &record.content),
            ),
        );
        assert(steps.deep_view() =~= before.push(StepModel::Create(record@)).push(
            print_of_desired(zone, Notice::Added, record@),
        ));
        assert(creations(zone, model).take(2 * (i + 1)) =~= creations(zone, model).take(
            2 * i,
        ).push(StepModel::Create(record@)).push(print_of_desired(zone, Notice::Added, record@)));
        i += 1;
    }
    assert(creations(zone, model).take(2 * delta.added.len()) =~= creations(zone, model));
    steps
}

} // verus!
