use vstd::prelude::*;

verus! {

/// Lifecycle state of one command run. `Done`, `Failed` and `Timeout` are
/// terminal: a task never leaves them.
#[derive(Debug, Clone, PartialEq, Eq)]
pub enum CommandStatus {
    Waiting,
    Running,
    Done,
    Failed(String),
    Timeout,
}

/// The colour in which a status is shown.
#[derive(Debug, Clone, Copy, PartialEq, Eq, Structural)]
pub enum StatusColor {
    Green,
    Red,
    Yellow,
    Gray,
    Magenta,
}

pub open spec fn is_terminal(s: CommandStatus) -> bool {
    match s {
        CommandStatus::Done | CommandStatus::Failed(_) | CommandStatus::Timeout => true,
        _ => false,
    }
}

/// Statuses whose time counts as work actually completed.
pub open spec fn counts_as_work(s: CommandStatus) -> bool {
    match s {
        CommandStatus::Done | CommandStatus::Failed(_) => true,
        _ => false,
    }
}

pub open spec fn status_label(s: CommandStatus) -> Seq<char> {
    match s {
        CommandStatus::Waiting => "Waiting"@,
        CommandStatus::Running => "Running"@,
        CommandStatus::Done => "Done"@,
        CommandStatus::Failed(_) => "Failed"@,
        CommandStatus::Timeout => "Timeout"@,
    }
}

pub open spec fn status_symbol(s: CommandStatus) -> Seq<char> {
    match s {
        CommandStatus::Done => "\u{2713}"@,
        CommandStatus::Failed(_) => "\u{2717}"@,
        CommandStatus::Running => "\u{27f3}"@,
        CommandStatus::Waiting => "\u{23f3}"@,
        CommandStatus::Timeout => "\u{23f1}"@,
    }
}

pub open spec fn status_color(s: CommandStatus) -> StatusColor {
    match s {
        CommandStatus::Done => StatusColor::Green,
        CommandStatus::Failed(_) => StatusColor::Red,
        CommandStatus::Running => StatusColor::Yellow,
        CommandStatus::Waiting => StatusColor::Gray,
        CommandStatus::Timeout => StatusColor::Magenta,
    }
}

impl CommandStatus {
    pub fn is_terminal(&self) -> (r: bool)
        ensures
            r == is_terminal(*self),
    {
        match self {
            CommandStatus::Done | CommandStatus::Failed(_) | CommandStatus::Timeout => true,
            _ => false,
        }
    }

    pub fn counts_as_work(&self) -> (r: bool)
        ensures
            r == counts_as_work(*self),
    {
        match self {
            CommandStatus::Done | CommandStatus::Failed(_) => true,
            _ => false,
        }
    }

    /// The status's name, as shown to a user.
    pub fn label(&self) -> (r: &'static str)
        ensures
            r@ == status_label(*self),
    {
        match self {
            CommandStatus::Waiting => "Waiting",
            CommandStatus::Running => "Running",
            CommandStatus::Done => "Done",
            CommandStatus::Failed(_) => "Failed",
            CommandStatus::Timeout => "Timeout",
        }
    }

    /// The symbol and colour with which the status is drawn.
    pub fn colored(&self) -> (r: (&'static str, StatusColor))
        ensures
            r.0@ == status_symbol(*self),
            r.1 == status_color(*self),
    {
        match self {
            CommandStatus::Done => ("\u{2713}", StatusColor::Green),
            CommandStatus::Failed(_) => ("\u{2717}", StatusColor::Red),
            CommandStatus::Running => ("\u{27f3}", StatusColor::Yellow),
            CommandStatus::Waiting => ("\u{23f3}", StatusColor::Gray),
            CommandStatus::Timeout => ("\u{23f1}", StatusColor::Magenta),
        }
    }
}

} // verus!
