use vstd::prelude::*;
use vstd::utf8::encode_utf8;
use crate::digits::chars_of;

verus! {

/// One instruction of a report plan.
#[derive(Debug, Clone, PartialEq, Eq)]
pub enum ReportCommand {
    /// Emit this text and a line feed.
    Line(String),
    /// Emit an empty line.
    Blank,
}

/// The label at this position is empty or holds a line break.
#[derive(Debug, Clone, Copy, PartialEq, Eq)]
pub struct InvalidLabel {
    pub index: usize,
}

/// The text a command emits before its line feed.
pub open spec fn command_text(command: ReportCommand) -> Seq<char> {
    match command {
        ReportCommand::Line(text) => text@,
        ReportCommand::Blank => Seq::empty(),
    }
}

/// Whether a command is a line with this text.
pub open spec fn is_line_of(command: ReportCommand, text: Seq<char>) -> bool {
    command is Line && command_text(command) == text
}

/// A label that planning accepts: nonempty and without CR or LF.
pub open spec fn valid_report_label(label: Seq<char>) -> bool {
    label.len() > 0 && forall|i: int| 0 <= i < label.len() ==> #[trigger] label[i] != '\r'
        && label[i] != '\n'
}

/// The bytes a plan renders to: each command's text in UTF-8, then a line
/// feed, in plan order.
pub open spec fn spec_render_plan(plan: Seq<ReportCommand>) -> Seq<u8>
    decreases plan.len(),
{
    if plan.len() == 0 {
        Seq::empty()
    } else {
        spec_render_plan(plan.drop_last()) + encode_utf8(command_text(plan.last())) + seq![10u8]
    }
}

fn label_is_valid(label: &str) -> (valid: bool)
    ensures
        valid == valid_report_label(label@),
{
    let chars = chars_of(label);
    if chars.len() == 0 {
        return false;
    }
    let mut i: usize = 0;
    while i < chars.len()
        invariant
            i <= chars@.len(),
            chars@ == label@,
            forall|j: int| 0 <= j < i ==> #[trigger] chars@[j] != '\r' && chars@[j] != '\n',
        decreases chars@.len() - i,
    {
        if chars[i] == '\r' || chars[i] == '\n' {
            return false;
        }
        i = i + 1;
    }
    true
}

/// Plans a report: a "Labels" heading, a blank line, then one line per
/// label in order. The first label that is empty or holds CR or LF rejects
/// the whole plan.
pub fn plan_labels(labels: &[&str]) -> (plan: Result<Vec<ReportCommand>, InvalidLabel>)
    ensures
        match plan {
            Ok(commands) => (forall|i: int|
                0 <= i < labels@.len() ==> valid_report_label(#[trigger] labels@[i]@))
                && commands@.len() == labels@.len() + 2 && command_text(commands@[0])
                == "Labels"@ && commands@[1] == ReportCommand::Blank && forall|i: int|
                0 <= i < labels@.len() ==> is_line_of(commands@[i + 2], #[trigger] labels@[i]@),
            Err(invalid) => invalid.index < labels@.len() && !valid_report_label(
                labels@[invalid.index as int]@,
            ) && forall|i: int|
                0 <= i < invalid.index ==> valid_report_label(#[trigger] labels@[i]@),
        },
{
    let mut plan: Vec<ReportCommand> = vec![ReportCommand::Line("Labels".to_owned()), ReportCommand::Blank];
    let mut index: usize = 0;
    while index < labels.len()
        invariant
            index <= labels@.len(),
            plan@.len() == index + 2,
            command_text(plan@[0]) == "Labels"@,
            plan@[1] == ReportCommand::Blank,
            forall|i: int| 0 <= i < index ==> valid_report_label(#[trigger] labels@[i]@),
            forall|i: int|
                0 <= i < index ==> is_line_of(plan@[i + 2], #[trigger] labels@[i]@),
        decreases labels@.len() - index,
    {
        let label = labels[index];
        if !label_is_valid(label) {
            return Err(InvalidLabel { index });
        }
        let owned = label.to_owned();
        assert(owned@ == labels@[index as int]@);
        let ghost before = plan@;
        let ghost pushed = ReportCommand::Line(owned);
        plan.push(ReportCommand::Line(owned));
        assert(command_text(pushed) == labels@[index as int]@);
        assert forall|i: int| 0 <= i < index + 1 implies is_line_of(
            plan@[i + 2],
            #[trigger] labels@[i]@,
        ) by {
            if i < index {
                assert(is_line_of(before[i + 2], labels@[i]@));
                assert(plan@[i + 2] == before[i + 2]);
            } else {
                assert(plan@[i + 2] == pushed);
            }
        }
        index = index + 1;
    }
    Ok(plan)
}

/// The text a command emits before its line feed.
pub fn line_text(command: &ReportCommand) -> (line: &str)
    ensures
        line@ == command_text(*command),
{
    match command {
        ReportCommand::Line(text) => text.as_str(),
        ReportCommand::Blank => {
            let empty = "";
            proof {
                reveal_strlit("");
            }
            empty
        },
    }
}

/// Renders a plan to bytes in memory.
pub fn render(plan: &[ReportCommand]) -> (bytes: Vec<u8>)
    ensures
        bytes@ == spec_render_plan(plan@),
{
    let mut bytes: Vec<u8> = Vec::new();
    let mut i: usize = 0;
    while i < plan.len()
        invariant
            i <= plan@.len(),
            bytes@ == spec_render_plan(plan@.take(i as int)),
        decreases plan@.len() - i,
    {
        let text = line_text(&plan[i]).as_bytes();
        let ghost before = bytes@;
        let mut j: usize = 0;
        while j < text.len()
            invariant
                j <= text@.len(),
                bytes@ == before + text@.take(j as int),
            decreases text@.len() - j,
        {
            bytes.push(text[j]);
            j = j + 1;
            assert(bytes@ =~= before + text@.take(j as int));
        }
        bytes.push(10u8);
        assert(plan@.take(i + 1).drop_last() =~= plan@.take(i as int));
        assert(text@.take(j as int) =~= text@);
        i = i + 1;
    }
    assert(plan@.take(i as int) =~= plan@);
    bytes
}

/// Rendering a concatenated plan gives the concatenation of the rendered
/// parts.
pub proof fn law_render_concatenation(first: Seq<ReportCommand>, second: Seq<ReportCommand>)
    ensures
        spec_render_plan(first + second) == spec_render_plan(first) + spec_render_plan(second),
    decreases second.len(),
{
    if second.len() == 0 {
        assert(first + second =~= first);
        assert(spec_render_plan(first) + Seq::<u8>::empty() =~= spec_render_plan(first));
    } else {
        let init = second.drop_last();
        assert((first + second).drop_last() =~= first + init);
        assert((first + second).last() == second.last());
        law_render_concatenation(first, init);
        assert(spec_render_plan(first) + spec_render_plan(init) + encode_utf8(
            command_text(second.last()),
        ) + seq![10u8] =~= spec_render_plan(first) + (spec_render_plan(init) + encode_utf8(
            command_text(second.last()),
        ) + seq![10u8]));
    }
}

} // verus!
