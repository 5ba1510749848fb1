use seishin::game::SchedulePhase;
use seishin::schedule::{check_component_name, system_failure_message, unknown_component_message, Schedule};

#[test]
fn schedule_keeps_systems_by_phase_in_order() {
    let mut schedule: Schedule<fn(&mut u32)> = Schedule::new();
    schedule.add_system(SchedulePhase::Update, "move", |n| *n += 1).expect("add move");
    schedule.add_system(SchedulePhase::Update, "collide", |n| *n *= 2).expect("add collide");
    schedule.add_system(SchedulePhase::Startup, "spawn", |n| *n = 1).expect("add spawn");

    assert_eq!(schedule.system_names(SchedulePhase::Update), vec!["move", "collide"]);
    assert_eq!(schedule.system_names(SchedulePhase::Startup), vec!["spawn"]);
    assert!(schedule.system_names(SchedulePhase::PostUpdate).is_empty());

    let mut counter = 0;
    assert!(schedule.startup_due());
    for (_, system) in schedule.systems_mut(SchedulePhase::Startup).iter_mut() {
        system(&mut counter);
    }
    schedule.mark_startup_complete();
    assert!(!schedule.startup_due());
    for (_, system) in schedule.systems_mut(SchedulePhase::Update).iter_mut() {
        system(&mut counter);
    }
    assert_eq!(counter, 4);
}

#[test]
fn blank_names_are_refused() {
    let mut schedule: Schedule<fn()> = Schedule::new();
    assert_eq!(
        schedule.add_system(SchedulePhase::Update, "  ", || {}),
        Err("schedule system name must not be empty".to_string())
    );
    assert!(schedule.system_names(SchedulePhase::Update).is_empty());
    assert_eq!(
        check_component_name(""),
        Err("component registration name must not be empty".to_string())
    );
    assert_eq!(check_component_name("PlayerController"), Ok(()));
}

#[test]
fn failure_messages_name_what_failed() {
    assert_eq!(
        unknown_component_message("PlayerController"),
        "unknown component type 'PlayerController'"
    );
    assert_eq!(
        system_failure_message("move", "no player"),
        "schedule system 'move' failed: no player"
    );
}

fn run_startup_once(schedule: &mut Schedule<fn(&mut Vec<&'static str>)>, calls: &mut Vec<&'static str>) {
    if schedule.startup_due() {
        for (_, system) in schedule.systems_mut(SchedulePhase::Startup).iter_mut() {
            system(calls);
        }
        schedule.mark_startup_complete();
    }
}

fn run_phase(schedule: &mut Schedule<fn(&mut Vec<&'static str>)>, phase: SchedulePhase, calls: &mut Vec<&'static str>) {
    for (_, system) in schedule.systems_mut(phase).iter_mut() {
        system(calls);
    }
}

#[test]
fn schedule_runs_startup_once_and_frame_phases_in_order() {
    let mut schedule: Schedule<fn(&mut Vec<&'static str>)> = Schedule::new();
    schedule
        .add_system(SchedulePhase::Startup, "startup", |calls| calls.push("startup"))
        .expect("add startup system");
    schedule
        .add_system(SchedulePhase::Update, "update", |calls| calls.push("update"))
        .expect("add update system");
    schedule
        .add_system(SchedulePhase::PostUpdate, "post_update", |calls| calls.push("post_update"))
        .expect("add post update system");

    let mut calls = Vec::new();
    run_startup_once(&mut schedule, &mut calls);
    run_phase(&mut schedule, SchedulePhase::Update, &mut calls);
    run_phase(&mut schedule, SchedulePhase::PostUpdate, &mut calls);
    run_startup_once(&mut schedule, &mut calls);

    assert_eq!(calls.as_slice(), ["startup", "update", "post_update"]);
}
