//! The plays handed to the automation runner, and their mathematical views.
use vstd::prelude::*;

verus! {

/// A module parameter: its key and its value.
pub type ArgView = (Seq<char>, Seq<char>);

/// The views of a list of module parameters.
pub open spec fn arg_views(v: Seq<(String, String)>) -> Seq<ArgView> {
    v.map_values(|p: (String, String)| (p.0@, p.1@))
}

/// One module invocation: the module's name and its parameters, in order.
pub struct AnsibleModule {
    pub name: String,
    pub args: Vec<(String, String)>,
}

pub struct ModuleView {
    pub name: Seq<char>,
    pub args: Seq<ArgView>,
}

impl View for AnsibleModule {
    type V = ModuleView;

    open spec fn view(&self) -> ModuleView {
        ModuleView { name: self.name@, args: arg_views(self.args@) }
    }
}

/// One task of a play: a described module invocation, and whether the runner
/// goes on past its failure.
pub struct AnsibleTask {
    pub name: String,
    pub module: AnsibleModule,
    pub ignore_errors: bool,
}

pub struct TaskView {
    pub name: Seq<char>,
    pub module: ModuleView,
    pub ignore_errors: bool,
}

impl View for AnsibleTask {
    type V = TaskView;

    open spec fn view(&self) -> TaskView {
        TaskView { name: self.name@, module: self.module@, ignore_errors: self.ignore_errors }
    }
}

pub open spec fn task_views(v: Seq<AnsibleTask>) -> Seq<TaskView> {
    v.map_values(|t: AnsibleTask| t@)
}

/// One play: ordered tasks run on the hosts that `hosts` selects, with
/// privilege escalation when `escalate` holds.
pub struct AnsiblePlay {
    pub name: String,
    pub hosts: String,
    pub gather_facts: bool,
    pub escalate: bool,
    pub tasks: Vec<AnsibleTask>,
}

pub struct PlayView {
    pub name: Seq<char>,
    pub hosts: Seq<char>,
    pub gather_facts: bool,
    pub escalate: bool,
    pub tasks: Seq<TaskView>,
}

impl View for AnsiblePlay {
    type V = PlayView;

    open spec fn view(&self) -> PlayView {
        PlayView {
            name: self.name@,
            hosts: self.hosts@,
            gather_facts: self.gather_facts,
            escalate: self.escalate,
            tasks: task_views(self.tasks@),
        }
    }
}

pub open spec fn play_views(v: Seq<AnsiblePlay>) -> Seq<PlayView> {
    v.map_values(|p: AnsiblePlay| p@)
}

/// A module parameter from a key and a value.
pub fn arg(key: &str, value: String) -> (r: (String, String))
    ensures
        r.0@ == key@,
        r.1@ == value@,
{
    (key.to_owned(), value)
}

} // verus!
