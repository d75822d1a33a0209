use burning_monitor::loop_test::loop_test::{
    kick_plan, parse_kick_type, run, run_with_runtime, Kick, KickType, ParseKickTypeError,
    RuntimeFlavor,
};
use burning_monitor::loop_test::loop_util::{parse_loop_arg, LoopArgError};

#[test]
fn loop_test_runs_multi_threaded() {
    assert_eq!(run(), RuntimeFlavor::MultiThread);
    assert_eq!(run_with_runtime(true), RuntimeFlavor::MultiThread);
    assert_eq!(run_with_runtime(false), RuntimeFlavor::CurrentThread);
}

#[test]
fn kick_types_parse_by_variant_name() {
    assert_eq!(parse_kick_type("AllInMain"), Ok(KickType::AllInMain));
    assert_eq!(parse_kick_type("AllInTask"), Ok(KickType::AllInTask));
    assert_eq!(parse_kick_type("DeadMainAndPrintTask"), Ok(KickType::DeadMainAndPrintTask));
    assert_eq!(parse_kick_type("DeadTaskAndPrintMain"), Ok(KickType::DeadTaskAndPrintMain));
    assert_eq!(parse_kick_type("DeadTaskAndPrintTask"), Ok(KickType::DeadTaskAndPrintTask));
}

#[test]
fn unknown_kick_type_is_refused() {
    assert_eq!(parse_kick_type("allintask"), Err(ParseKickTypeError));
    assert_eq!(parse_kick_type(""), Err(ParseKickTypeError));
    assert_eq!(parse_kick_type("AllInTask "), Err(ParseKickTypeError));
}

fn tasks_of(kick: KickType) -> Vec<(String, Vec<Kick>)> {
    kick_plan(kick).tasks.iter().map(|t| (t.name.to_string(), t.kicks.clone())).collect()
}

#[test]
fn kick_plans_place_each_loop() {
    assert!(tasks_of(KickType::AllInMain).is_empty());
    assert_eq!(kick_plan(KickType::AllInMain).main, vec![Kick::Print, Kick::Dead]);

    assert_eq!(
        tasks_of(KickType::AllInTask),
        vec![("launch-all-main".to_string(), vec![Kick::Print, Kick::Dead])]
    );
    assert!(kick_plan(KickType::AllInTask).main.is_empty());

    assert_eq!(tasks_of(KickType::DeadMainAndPrintTask), vec![("launch-print".to_string(), vec![Kick::Print])]);
    assert_eq!(kick_plan(KickType::DeadMainAndPrintTask).main, vec![Kick::Dead]);

    assert_eq!(tasks_of(KickType::DeadTaskAndPrintMain), vec![("launch-dead".to_string(), vec![Kick::Dead])]);
    assert_eq!(kick_plan(KickType::DeadTaskAndPrintMain).main, vec![Kick::Print]);

    assert_eq!(
        tasks_of(KickType::DeadTaskAndPrintTask),
        vec![
            ("launch-print".to_string(), vec![Kick::Print]),
            ("launch-dead".to_string(), vec![Kick::Dead]),
        ]
    );
    assert!(kick_plan(KickType::DeadTaskAndPrintTask).main.is_empty());
}

#[test]
fn loop_arg_parses_as_u64() {
    assert_eq!(parse_loop_arg("30"), Ok(30));
    assert_eq!(parse_loop_arg("+7"), Ok(7));
    assert_eq!(parse_loop_arg("007"), Ok(7));
    assert_eq!(parse_loop_arg("0"), Ok(0));
    assert_eq!(parse_loop_arg("18446744073709551615"), Ok(u64::MAX));
}

#[test]
fn bad_loop_arg_is_refused() {
    assert_eq!(parse_loop_arg(""), Err(LoopArgError));
    assert_eq!(parse_loop_arg("+"), Err(LoopArgError));
    assert_eq!(parse_loop_arg("-1"), Err(LoopArgError));
    assert_eq!(parse_loop_arg(" 3"), Err(LoopArgError));
    assert_eq!(parse_loop_arg("3a"), Err(LoopArgError));
    assert_eq!(parse_loop_arg("++3"), Err(LoopArgError));
    assert_eq!(parse_loop_arg("\u{663}"), Err(LoopArgError));
    assert_eq!(parse_loop_arg("18446744073709551616"), Err(LoopArgError));
    assert_eq!(parse_loop_arg("99999999999999999999x"), Err(LoopArgError));
}

#[test]
fn loop_arg_agrees_with_std() {
    for s in ["1", "+1", "-0", "", "x", "12345678901234567890", "184467440737095516150", "+0"] {
        assert_eq!(parse_loop_arg(s).ok(), s.parse::<u64>().ok(), "{:?}", s);
    }
}

#[test]
fn every_plan_starts_each_loop_once() {
    for kick in [
        KickType::AllInMain,
        KickType::AllInTask,
        KickType::DeadMainAndPrintTask,
        KickType::DeadTaskAndPrintMain,
        KickType::DeadTaskAndPrintTask,
    ] {
        let plan = kick_plan(kick);
        let all: Vec<Kick> = plan.tasks.iter().flat_map(|t| t.kicks.clone()).chain(plan.main.clone()).collect();
        assert_eq!(all.iter().filter(|k| **k == Kick::Print).count(), 1, "{:?}", kick);
        assert_eq!(all.iter().filter(|k| **k == Kick::Dead).count(), 1, "{:?}", kick);
        assert_eq!(all.len(), 2);
    }
}
