//! The task entity: a named record with free-text description, a closed
//! priority enumeration, and a creation timestamp carried as plain calendar
//! fields with a local-time offset.

use vstd::prelude::*;
use crate::text::{four_digits, push_four_digits, push_two_digits, str_eq, two_digits};
use vstd::string::StringExecFns;

verus! {

/// A task's priority: a closed enumeration with a stable textual tag equal
/// to the variant name.
#[derive(Clone, Copy, PartialEq, Eq, Structural, Debug)]
pub enum Priority {
    Low,
    Medium,
    High,
}

/// The textual tag of a priority: its variant name.
pub open spec fn priority_label(p: Priority) -> Seq<char> {
    match p {
        Priority::Low => "Low"@,
        Priority::Medium => "Medium"@,
        Priority::High => "High"@,
    }
}

impl Priority {
    /// The priority's textual tag, as written in the persisted form.
    pub fn to_string(&self) -> (r: String)
        ensures
            r@ == priority_label(*self),
    {
        match self {
            Priority::Low => "Low".to_owned(),
            Priority::Medium => "Medium".to_owned(),
            Priority::High => "High".to_owned(),
        }
    }

    /// Maps a lower-case console answer to a priority; anything unrecognized
    /// falls back to `Low`, matching the interactive default.
    pub fn from_input(s: &str) -> (r: Priority)
        ensures
            s@ == "low"@ ==> r == Priority::Low,
            s@ == "medium"@ ==> r == Priority::Medium,
            s@ == "high"@ ==> r == Priority::High,
            s@ != "low"@ && s@ != "medium"@ && s@ != "high"@ ==> r == Priority::Low,
    {
        proof {
            reveal_strlit("low");
            reveal_strlit("medium");
            reveal_strlit("high");
            assert("low"@.len() == 3);
            assert("medium"@.len() == 6);
            assert("high"@.len() == 4);
        }
        if str_eq(s, "medium") {
            Priority::Medium
        } else if str_eq(s, "high") {
            Priority::High
        } else {
            Priority::Low
        }
    }
}

/// A creation time: calendar fields in the local time zone, with the
/// zone's offset from UTC kept alongside, at second precision.
#[derive(Clone, Copy, PartialEq, Eq, Structural, Debug)]
pub struct Timestamp {
    pub year: u32,
    pub month: u32,
    pub day: u32,
    pub hour: u32,
    pub minute: u32,
    pub second: u32,
    /// Minutes east of UTC; strictly between -24 h and +24 h.
    pub offset_minutes: i32,
}

impl Timestamp {
    /// Field ranges of a representable calendar time.
    pub open spec fn wf(self) -> bool {
        &&& self.year <= 9999
        &&& 1 <= self.month <= 12
        &&& 1 <= self.day <= 31
        &&& self.hour < 24
        &&& self.minute < 60
        &&& self.second < 60
        &&& -1440 < self.offset_minutes < 1440
    }

    /// Plain construction from calendar fields.
    pub fn new(
        year: u32,
        month: u32,
        day: u32,
        hour: u32,
        minute: u32,
        second: u32,
        offset_minutes: i32,
    ) -> (r: Self)
        requires
            year <= 9999,
            1 <= month <= 12,
            1 <= day <= 31,
            hour < 24,
            minute < 60,
            second < 60,
            -1440 < offset_minutes < 1440,
        ensures
            r == (Timestamp { year, month, day, hour, minute, second, offset_minutes }),
            r.wf(),
    {
        Timestamp { year, month, day, hour, minute, second, offset_minutes }
    }
}

/// The display image of a timestamp: `DD-MM-YYYY HH:MM:SS`.
pub open spec fn format_time(t: Timestamp) -> Seq<char> {
    two_digits(t.day as int) + "-"@ + two_digits(t.month as int) + "-"@ + four_digits(
        t.year as int,
    ) + " "@ + two_digits(t.hour as int) + ":"@ + two_digits(t.minute as int) + ":"@ + two_digits(
        t.second as int,
    )
}

/// One task: the name is the lookup key within a repository; all fields are
/// replaced together on edit.
pub struct Task {
    pub name: String,
    pub description: String,
    pub priority: Priority,
    pub add_time: Timestamp,
}

/// The mathematical image of a task: its text fields as character
/// sequences, the scalar fields as they are.
pub struct TaskView {
    pub name: Seq<char>,
    pub description: Seq<char>,
    pub priority: Priority,
    pub add_time: Timestamp,
}

impl TaskView {
    /// A task is representable when its timestamp is.
    pub open spec fn wf(self) -> bool {
        self.add_time.wf()
    }
}

impl View for Task {
    type V = TaskView;

    open spec fn view(&self) -> TaskView {
        TaskView {
            name: self.name@,
            description: self.description@,
            priority: self.priority,
            add_time: self.add_time,
        }
    }
}

/// The two-line display image of a task:
/// `> name | priority | DD-MM-YYYY HH:MM:SS` then `/ description /`.
pub open spec fn render_image(t: TaskView) -> Seq<char> {
    "> "@ + t.name + " | "@ + priority_label(t.priority) + " | "@ + format_time(t.add_time)
        + "\n/ "@ + t.description + " /"@
}

impl Task {
    /// Plain value construction; no validation beyond the field types.
    pub fn new(name: String, description: String, priority: Priority, add_time: Timestamp) -> (r:
        Self)
        ensures
            r@ == (TaskView { name: name@, description: description@, priority, add_time }),
    {
        Task { name, description, priority, add_time }
    }

    /// The task's fixed two-line human-readable form.
    pub fn render(&self) -> (r: String)
        requires
            self@.wf(),
        ensures
            r@ == render_image(self@),
    {
        let mut out: String = String::new();
        out.append("> ");
        out.append(self.name.as_str());
        out.append(" | ");
        let label: String = self.priority.to_string();
        out.append(label.as_str());
        out.append(" | ");
        push_two_digits(&mut out, self.add_time.day);
        out.append("-");
        push_two_digits(&mut out, self.add_time.month);
        out.append("-");
        push_four_digits(&mut out, self.add_time.year);
        out.append(" ");
        push_two_digits(&mut out, self.add_time.hour);
        out.append(":");
        push_two_digits(&mut out, self.add_time.minute);
        out.append(":");
        push_two_digits(&mut out, self.add_time.second);
        out.append("\n/ ");
        out.append(self.description.as_str());
        out.append(" /");
        assert(out@ =~= render_image(self@));
        out
    }
}

} // verus!
