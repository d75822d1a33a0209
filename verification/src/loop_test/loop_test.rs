use vstd::prelude::*;

use crate::text::{chars_eq_str, str_chars};

verus! {

/// Where the dead loop and the print loops are started from.
#[derive(Debug, Clone, Copy, PartialEq, Eq, Structural)]
pub enum KickType {
    /// Both loops are started from the main task.
    AllInMain,
    /// Both loops are started from one spawned task.
    AllInTask,
    /// The dead loop from the main task, the print loops from a spawned task.
    DeadMainAndPrintTask,
    /// The dead loop from a spawned task, the print loops from the main task.
    DeadTaskAndPrintMain,
    /// The dead loop and the print loops from two spawned tasks.
    DeadTaskAndPrintTask,
}

/// The text names no kick type.
#[derive(Debug, Clone, Copy, PartialEq, Eq, Structural)]
pub struct ParseKickTypeError;

/// The kick type whose variant name is exactly `s`, if any.
pub open spec fn spec_parse_kick_type(s: Seq<char>) -> Option<KickType> {
    if s == "AllInMain"@ {
        Some(KickType::AllInMain)
    } else if s == "AllInTask"@ {
        Some(KickType::AllInTask)
    } else if s == "DeadMainAndPrintTask"@ {
        Some(KickType::DeadMainAndPrintTask)
    } else if s == "DeadTaskAndPrintMain"@ {
        Some(KickType::DeadTaskAndPrintMain)
    } else if s == "DeadTaskAndPrintTask"@ {
        Some(KickType::DeadTaskAndPrintTask)
    } else {
        None
    }
}

/// The variant name of `kick`.
pub open spec fn kick_type_name(kick: KickType) -> Seq<char> {
    match kick {
        KickType::AllInMain => "AllInMain"@,
        KickType::AllInTask => "AllInTask"@,
        KickType::DeadMainAndPrintTask => "DeadMainAndPrintTask"@,
        KickType::DeadTaskAndPrintMain => "DeadTaskAndPrintMain"@,
        KickType::DeadTaskAndPrintTask => "DeadTaskAndPrintTask"@,
    }
}

/// Every kick type parses back from its own variant name.
pub proof fn law_kick_type_name_round_trip(kick: KickType)
    ensures
        spec_parse_kick_type(kick_type_name(kick)) == Some(kick),
{
    reveal_strlit("AllInMain");
    reveal_strlit("AllInTask");
    reveal_strlit("DeadMainAndPrintTask");
    reveal_strlit("DeadTaskAndPrintMain");
    reveal_strlit("DeadTaskAndPrintTask");
    assert("AllInTask"@[5] != "AllInMain"@[5]);
    assert("DeadTaskAndPrintMain"@[4] != "DeadMainAndPrintTask"@[4]);
    assert("DeadTaskAndPrintTask"@[4] != "DeadMainAndPrintTask"@[4]);
    assert("DeadTaskAndPrintTask"@[16] != "DeadTaskAndPrintMain"@[16]);
}

/// The parser accepts exactly the variant names, letter for letter: a text
/// parses to `kick` if and only if it is the name of `kick`, and any other
/// text (another spelling or case among them) is refused.
pub proof fn law_parse_accepts_exactly_names(s: Seq<char>, kick: KickType)
    ensures
        (spec_parse_kick_type(s) == Some(kick)) <==> (s == kick_type_name(kick)),
        (spec_parse_kick_type(s) is None) <==> (forall|k: KickType| s != #[trigger] kick_type_name(k)),
{
    law_kick_type_name_round_trip(kick);
    if s == kick_type_name(kick) {
        assert(spec_parse_kick_type(s) == Some(kick));
    }
    if let Some(k) = spec_parse_kick_type(s) {
        assert(s == kick_type_name(k));
    }
    if spec_parse_kick_type(s) is None {
        assert forall|k: KickType| s != #[trigger] kick_type_name(k) by {
            law_kick_type_name_round_trip(k);
        }
    }
}

/// Parses a kick type from its variant name, case-sensitively.
pub fn parse_kick_type(s: &str) -> (r: Result<KickType, ParseKickTypeError>)
    ensures
        match spec_parse_kick_type(s@) {
            Some(k) => r == Ok::<KickType, ParseKickTypeError>(k),
            None => r == Err::<KickType, ParseKickTypeError>(ParseKickTypeError),
        },
{
    let chars = str_chars(s);
    if chars_eq_str(&chars, "AllInMain") {
        Ok(KickType::AllInMain)
    } else if chars_eq_str(&chars, "AllInTask") {
        Ok(KickType::AllInTask)
    } else if chars_eq_str(&chars, "DeadMainAndPrintTask") {
        Ok(KickType::DeadMainAndPrintTask)
    } else if chars_eq_str(&chars, "DeadTaskAndPrintMain") {
        Ok(KickType::DeadTaskAndPrintMain)
    } else if chars_eq_str(&chars, "DeadTaskAndPrintTask") {
        Ok(KickType::DeadTaskAndPrintTask)
    } else {
        Err(ParseKickTypeError)
    }
}

/// The kind of async runtime the loop test runs on.
#[derive(Debug, Clone, Copy, PartialEq, Eq, Structural)]
pub enum RuntimeFlavor {
    MultiThread,
    CurrentThread,
}

/// The runtime the loop test runs on: a multi-threaded one when `is_mt`.
pub fn run_with_runtime(is_mt: bool) -> (r: RuntimeFlavor)
    ensures
        r == if is_mt {
            RuntimeFlavor::MultiThread
        } else {
            RuntimeFlavor::CurrentThread
        },
{
    if is_mt {
        RuntimeFlavor::MultiThread
    } else {
        RuntimeFlavor::CurrentThread
    }
}

/// The loop test runs on a multi-threaded runtime.
pub fn run() -> (r: RuntimeFlavor)
    ensures
        r == RuntimeFlavor::MultiThread,
{
    run_with_runtime(true)
}

/// A loop to start.
#[derive(Debug, Clone, Copy, PartialEq, Eq, Structural)]
pub enum Kick {
    /// The print loops: ten print tasks and one print thread.
    Print,
    /// The busy loop, after a two-second pause.
    Dead,
}

/// A task to spawn under `name`, which starts `kicks` in order.
pub struct LaunchTask {
    pub name: &'static str,
    pub kicks: Vec<Kick>,
}

/// How a kick type starts its loops: first every task is spawned, in order,
/// then the main task starts its own kicks, in order.
pub struct KickPlan {
    pub tasks: Vec<LaunchTask>,
    pub main: Vec<Kick>,
}

/// The tasks of the plan of `kick`: each task's name and kicks.
pub open spec fn plan_tasks(kick: KickType) -> Seq<(Seq<char>, Seq<Kick>)> {
    match kick {
        KickType::AllInMain => seq![],
        KickType::AllInTask => seq![("launch-all-main"@, seq![Kick::Print, Kick::Dead])],
        KickType::DeadMainAndPrintTask => seq![("launch-print"@, seq![Kick::Print])],
        KickType::DeadTaskAndPrintMain => seq![("launch-dead"@, seq![Kick::Dead])],
        KickType::DeadTaskAndPrintTask => seq![
            ("launch-print"@, seq![Kick::Print]),
            ("launch-dead"@, seq![Kick::Dead]),
        ],
    }
}

/// The kicks the main task of the plan of `kick` starts itself.
pub open spec fn plan_main(kick: KickType) -> Seq<Kick> {
    match kick {
        KickType::AllInMain => seq![Kick::Print, Kick::Dead],
        KickType::AllInTask => seq![],
        KickType::DeadMainAndPrintTask => seq![Kick::Dead],
        KickType::DeadTaskAndPrintMain => seq![Kick::Print],
        KickType::DeadTaskAndPrintTask => seq![],
    }
}

/// The kicks of all the tasks, in order.
pub open spec fn task_kicks(tasks: Seq<(Seq<char>, Seq<Kick>)>) -> Seq<Kick>
    decreases tasks.len(),
{
    if tasks.len() == 0 {
        seq![]
    } else {
        task_kicks(tasks.drop_last()) + tasks.last().1
    }
}

/// How many times `k` occurs in `s`.
pub open spec fn count_kick(s: Seq<Kick>, k: Kick) -> nat
    decreases s.len(),
{
    if s.len() == 0 {
        0
    } else {
        count_kick(s.drop_last(), k) + if s.last() == k {
            1nat
        } else {
            0nat
        }
    }
}

/// Whatever the kick type, its plan starts the print loops exactly once and
/// the dead loop exactly once; only the place they start from differs.
pub proof fn law_plan_starts_each_loop_once(kick: KickType)
    ensures
        count_kick(task_kicks(plan_tasks(kick)) + plan_main(kick), Kick::Print) == 1,
        count_kick(task_kicks(plan_tasks(kick)) + plan_main(kick), Kick::Dead) == 1,
{
    reveal_with_fuel(task_kicks, 3);
    reveal_with_fuel(count_kick, 3);
    let all = task_kicks(plan_tasks(kick)) + plan_main(kick);
    match kick {
        KickType::AllInMain => {
            assert(all =~= seq![Kick::Print, Kick::Dead]);
        },
        KickType::AllInTask => {
            assert(all =~= seq![Kick::Print, Kick::Dead]);
        },
        KickType::DeadMainAndPrintTask => {
            assert(all =~= seq![Kick::Print, Kick::Dead]);
        },
        KickType::DeadTaskAndPrintMain => {
            assert(all =~= seq![Kick::Dead, Kick::Print]);
        },
        KickType::DeadTaskAndPrintTask => {
            assert(all =~= seq![Kick::Print, Kick::Dead]);
        },
    }
    assert(seq![Kick::Print, Kick::Dead].drop_last() =~= seq![Kick::Print]);
    assert(seq![Kick::Dead, Kick::Print].drop_last() =~= seq![Kick::Dead]);
    assert(seq![Kick::Print].drop_last() =~= Seq::<Kick>::empty());
    assert(seq![Kick::Dead].drop_last() =~= Seq::<Kick>::empty());
}

fn launch(name: &'static str, kicks: Vec<Kick>) -> (t: LaunchTask)
    ensures
        t.name@ == name@,
        t.kicks@ == kicks@,
{
    LaunchTask { name, kicks }
}

/// Where each loop is started from for `kick`.
pub fn kick_plan(kick: KickType) -> (plan: KickPlan)
    ensures
        plan.main@ == plan_main(kick),
        plan.tasks@.len() == plan_tasks(kick).len(),
        forall|i: int|
            0 <= i < plan.tasks@.len() ==> (#[trigger] plan.tasks@[i]).name@ == plan_tasks(kick)[i].0
                && plan.tasks@[i].kicks@ == plan_tasks(kick)[i].1,
{
    match kick {
        KickType::AllInMain => KickPlan { tasks: vec![], main: vec![Kick::Print, Kick::Dead] },
        KickType::AllInTask => KickPlan {
            tasks: vec![launch("launch-all-main", vec![Kick::Print, Kick::Dead])],
            main: vec![],
        },
        KickType::DeadMainAndPrintTask => KickPlan {
            tasks: vec![launch("launch-print", vec![Kick::Print])],
            main: vec![Kick::Dead],
        },
        KickType::DeadTaskAndPrintMain => KickPlan {
            tasks: vec![launch("launch-dead", vec![Kick::Dead])],
            main: vec![Kick::Print],
        },
        KickType::DeadTaskAndPrintTask => KickPlan {
            tasks: vec![
                launch("launch-print", vec![Kick::Print]),
                launch("launch-dead", vec![Kick::Dead]),
            ],
            main: vec![],
        },
    }
}

} // verus!
