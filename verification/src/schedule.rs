//! Named game systems by phase, startup run once, and the names that
//! component registrations and schedules accept.
use vstd::prelude::*;

use crate::game::SchedulePhase;
use crate::scan::{spec_trim, trim};
use crate::text::chars_of;

verus! {

/// Whether a name is blank: nothing is left once white space is trimmed.
pub open spec fn is_blank(name: Seq<char>) -> bool {
    spec_trim(name).len() == 0
}

fn blank(name: &str) -> (result: bool)
    ensures
        result == is_blank(name@),
{
    let chars = chars_of(name);
    trim(chars.as_slice()).len() == 0
}

/// Checks a component registration name: a blank one is refused.
pub fn check_component_name(name: &str) -> (result: Result<(), String>)
    ensures
        is_blank(name@) ==> (result matches Err(message) && message@
            == "component registration name must not be empty"@),
        !is_blank(name@) ==> result is Ok,
{
    if blank(name) {
        Err("component registration name must not be empty".to_owned())
    } else {
        Ok(())
    }
}

/// What is said of a scene component whose type nobody registered.
pub fn unknown_component_message(component_type: &str) -> (message: String)
    ensures
        message@ == "unknown component type '"@ + component_type@ + "'"@,
{
    let mut message = "unknown component type '".to_owned();
    message.append(component_type);
    message.append("'");
    message
}

/// What is said of a system that failed, with the failure's own words.
pub fn system_failure_message(name: &str, failure: &str) -> (message: String)
    ensures
        message@ == "schedule system '"@ + name@ + "' failed: "@ + failure@,
{
    let mut message = "schedule system '".to_owned();
    message.append(name);
    message.append("' failed: ");
    message.append(failure);
    message
}

/// The systems of a game by phase, each under its name, in the order they
/// were added, and whether the startup systems have run.
pub struct Schedule<F> {
    startup_complete: bool,
    startup: Vec<(String, F)>,
    update: Vec<(String, F)>,
    post_update: Vec<(String, F)>,
}

/// A schedule as the names of its systems by phase and whether startup ran.
pub struct ScheduleView {
    pub startup_complete: bool,
    pub startup: Seq<Seq<char>>,
    pub update: Seq<Seq<char>>,
    pub post_update: Seq<Seq<char>>,
}

/// The names of systems, in order.
pub open spec fn system_names_of<F>(systems: Seq<(String, F)>) -> Seq<Seq<char>> {
    systems.map_values(|system: (String, F)| system.0@)
}

/// The names of a phase's systems.
pub open spec fn phase_names(schedule: ScheduleView, phase: SchedulePhase) -> Seq<Seq<char>> {
    match phase {
        SchedulePhase::Startup => schedule.startup,
        SchedulePhase::Update => schedule.update,
        SchedulePhase::PostUpdate => schedule.post_update,
    }
}

/// The schedule with a name added at the end of a phase.
pub open spec fn with_system(schedule: ScheduleView, phase: SchedulePhase, name: Seq<char>) -> ScheduleView {
    match phase {
        SchedulePhase::Startup => ScheduleView { startup: schedule.startup.push(name), ..schedule },
        SchedulePhase::Update => ScheduleView { update: schedule.update.push(name), ..schedule },
        SchedulePhase::PostUpdate => ScheduleView { post_update: schedule.post_update.push(name), ..schedule },
    }
}

/// The systems themselves, in order.
pub open spec fn system_values_of<F>(systems: Seq<(String, F)>) -> Seq<F> {
    systems.map_values(|system: (String, F)| system.1)
}

impl<F> Schedule<F> {
    /// The systems of a phase, in the order they were added.
    pub closed spec fn phase_systems(&self, phase: SchedulePhase) -> Seq<F> {
        match phase {
            SchedulePhase::Startup => system_values_of(self.startup@),
            SchedulePhase::Update => system_values_of(self.update@),
            SchedulePhase::PostUpdate => system_values_of(self.post_update@),
        }
    }
}

impl<F> View for Schedule<F> {
    type V = ScheduleView;

    closed spec fn view(&self) -> ScheduleView {
        ScheduleView {
            startup_complete: self.startup_complete,
            startup: system_names_of(self.startup@),
            update: system_names_of(self.update@),
            post_update: system_names_of(self.post_update@),
        }
    }
}

impl<F> Schedule<F> {
    /// No systems, startup not run.
    pub fn new() -> (schedule: Schedule<F>)
        ensures
            !schedule@.startup_complete,
            schedule@.startup == Seq::<Seq<char>>::empty(),
            schedule@.update == Seq::<Seq<char>>::empty(),
            schedule@.post_update == Seq::<Seq<char>>::empty(),
            forall|phase: SchedulePhase| #[trigger] schedule.phase_systems(phase) == Seq::<F>::empty(),
    {
        let schedule = Schedule {
            startup_complete: false,
            startup: Vec::new(),
            update: Vec::new(),
            post_update: Vec::new(),
        };
        assert(schedule@.startup =~= Seq::<Seq<char>>::empty());
        assert(schedule@.update =~= Seq::<Seq<char>>::empty());
        assert(schedule@.post_update =~= Seq::<Seq<char>>::empty());
        assert forall|phase: SchedulePhase| #[trigger] schedule.phase_systems(phase) == Seq::<F>::empty() by {
            assert(system_values_of(schedule.startup@) =~= Seq::<F>::empty());
            assert(system_values_of(schedule.update@) =~= Seq::<F>::empty());
            assert(system_values_of(schedule.post_update@) =~= Seq::<F>::empty());
        }
        schedule
    }

    /// Adds a named system at the end of a phase; a blank name is refused.
    pub fn add_system(&mut self, phase: SchedulePhase, name: &str, system: F) -> (result: Result<(), String>)
        ensures
            is_blank(name@) ==> (result matches Err(message) && message@
                == "schedule system name must not be empty"@ && final(self)@ == old(self)@),
            !is_blank(name@) ==> (result is Ok && final(self)@ == with_system(old(self)@, phase, name@)),
            is_blank(name@) ==> forall|p: SchedulePhase| #[trigger] final(self).phase_systems(p) == old(self).phase_systems(p),
            !is_blank(name@) ==> final(self).phase_systems(phase) == old(self).phase_systems(phase).push(system),
            !is_blank(name@) ==> forall|p: SchedulePhase| p != phase ==> #[trigger] final(self).phase_systems(p)
                == old(self).phase_systems(p),
    {
        if blank(name) {
            return Err("schedule system name must not be empty".to_owned());
        }
        let ghost added = system;
        let entry = (name.to_owned(), system);
        let ghost named = entry.0@;
        match phase {
            SchedulePhase::Startup => {
                let ghost before = self.startup@;
                self.startup.push(entry);
                assert(system_names_of(self.startup@) =~= system_names_of(before).push(named));
                assert(system_values_of(self.startup@) =~= system_values_of(before).push(added));
            },
            SchedulePhase::Update => {
                let ghost before = self.update@;
                self.update.push(entry);
                assert(system_names_of(self.update@) =~= system_names_of(before).push(named));
                assert(system_values_of(self.update@) =~= system_values_of(before).push(added));
            },
            SchedulePhase::PostUpdate => {
                let ghost before = self.post_update@;
                self.post_update.push(entry);
                assert(system_names_of(self.post_update@) =~= system_names_of(before).push(named));
                assert(system_values_of(self.post_update@) =~= system_values_of(before).push(added));
            },
        }
        Ok(())
    }

    /// The names of a phase's systems, in the order they were added.
    pub fn system_names(&self, phase: SchedulePhase) -> (names: Vec<String>)
        ensures
            names@.map_values(|name: String| name@) == phase_names(self@, phase),
    {
        let systems = match phase {
            SchedulePhase::Startup => &self.startup,
            SchedulePhase::Update => &self.update,
            SchedulePhase::PostUpdate => &self.post_update,
        };
        let mut names: Vec<String> = Vec::new();
        let mut i: usize = 0;
        while i < systems.len()
            invariant
                i <= systems@.len(),
                names@.map_values(|name: String| name@) == system_names_of(systems@).take(i as int),
            decreases systems@.len() - i,
        {
            let ghost before = names@;
            let name = systems[i].0.clone();
            names.push(name);
            assert(names@.map_values(|name: String| name@) =~= before.map_values(|name: String| name@).push(
                systems@[i as int].0@,
            ));
            assert(system_names_of(systems@).take(i + 1) =~= system_names_of(systems@).take(i as int).push(
                systems@[i as int].0@,
            ));
            i = i + 1;
        }
        assert(system_names_of(systems@).take(i as int) =~= system_names_of(systems@));
        names
    }

    /// The systems of a phase, for the caller to run in order.
    pub fn systems_mut(&mut self, phase: SchedulePhase) -> (systems: &mut Vec<(String, F)>)
        ensures
            system_names_of(systems@) == phase_names(old(self)@, phase),
            system_values_of(systems@) == old(self).phase_systems(phase),
            final(self).phase_systems(phase) == system_values_of(final(systems)@),
            forall|p: SchedulePhase| p != phase ==> #[trigger] final(self).phase_systems(p) == old(self).phase_systems(p),
            final(self)@ == match phase {
                SchedulePhase::Startup => ScheduleView { startup: system_names_of(final(systems)@), ..old(self)@ },
                SchedulePhase::Update => ScheduleView { update: system_names_of(final(systems)@), ..old(self)@ },
                SchedulePhase::PostUpdate => ScheduleView {
                    post_update: system_names_of(final(systems)@),
                    ..old(self)@
                },
            },
    {
        match phase {
            SchedulePhase::Startup => &mut self.startup,
            SchedulePhase::Update => &mut self.update,
            SchedulePhase::PostUpdate => &mut self.post_update,
        }
    }

    /// Whether the startup systems still have to run: they run once.
    pub fn startup_due(&self) -> (due: bool)
        ensures
            due == !self@.startup_complete,
    {
        !self.startup_complete
    }

    /// Records that the startup systems all ran.
    pub fn mark_startup_complete(&mut self)
        ensures
            final(self)@ == (ScheduleView { startup_complete: true, ..old(self)@ }),
            forall|p: SchedulePhase| #[trigger] final(self).phase_systems(p) == old(self).phase_systems(p),
    {
        self.startup_complete = true;
    }
}

} // verus!
