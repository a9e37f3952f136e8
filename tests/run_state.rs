use agent_core::context::RunContext;
use agent_core::history::ChatRole;
use agent_core::invocation::Invocation;
use agent_core::parser::parse_model_response;
use agent_core::perms::triplet;
use agent_core::state::{
    Action, ActionEntry, BudgetError, Dispatch, Namespace, State, StepOutcome, Task,
    MISUSE_MESSAGE,
};
use agent_core::storage::{StorageKind, StorageSpec};

enum Probe {
    Echo,
    Finish,
    Fail,
    Remember,
}

impl Action for Probe {
    fn run(
        &self,
        ctx: &mut RunContext,
        _attributes: &Option<Vec<(String, String)>>,
        payload: &Option<String>,
    ) -> Result<Option<String>, String> {
        match self {
            Probe::Echo => Ok(payload.clone()),
            Probe::Finish => {
                ctx.on_complete(false, payload.clone());
                Ok(None)
            }
            Probe::Fail => Err("it broke".to_string()),
            Probe::Remember => {
                let value = payload.clone().unwrap_or_default();
                if ctx.add_to_storage(&"memories".to_string(), &value) {
                    Ok(None)
                } else {
                    Err("no memory".to_string())
                }
            }
        }
    }
}

fn entry(name: &str, example: &str, behavior: Probe) -> ActionEntry<Probe> {
    ActionEntry {
        name: name.to_string(),
        description: format!("Runs {name}."),
        example_payload: Some(example.to_string()),
        example_attributes: None,
        behavior,
    }
}

fn registry() -> Vec<Namespace<Probe>> {
    vec![
        Namespace {
            name: "Filesystem".to_string(),
            description: "Files.".to_string(),
            actions: vec![
                entry("read-file", "/path/to/file/to/read", Probe::Echo),
                entry("broken", "/example", Probe::Fail),
            ],
            storages: None,
        },
        Namespace {
            name: "Memory".to_string(),
            description: String::new(),
            actions: vec![entry("remember", "something", Probe::Remember)],
            storages: Some(vec![
                StorageSpec { name: "memories".to_string(), kind: StorageKind::List },
                StorageSpec { name: "goal".to_string(), kind: StorageKind::Single },
            ]),
        },
        Namespace {
            name: "Task".to_string(),
            description: String::new(),
            actions: vec![entry("task-complete", "reason", Probe::Finish)],
            storages: Some(vec![StorageSpec {
                name: "goal".to_string(),
                kind: StorageKind::Single,
            }]),
        },
    ]
}

fn task(using: Option<Vec<&str>>) -> Task<Probe> {
    Task {
        prompt: "find the file".to_string(),
        system_prompt: "You are an agent.".to_string(),
        guidance: vec!["be brief".to_string(), "be right".to_string()],
        namespaces: using.map(|u| u.into_iter().map(|s| s.to_string()).collect()),
        functions: vec![],
    }
}

fn state(max: usize) -> State<Probe> {
    State::new(task(None), registry(), max)
}

fn inv(action: &str, payload: &str) -> Invocation {
    Invocation::new(action.to_string(), None, Some(payload.to_string()))
}

#[test]
fn budget_of_three_allows_two_steps() {
    let mut s = state(3);
    assert_eq!(s.on_next_iteration(), Ok(()));
    assert_eq!(s.on_next_iteration(), Ok(()));
    assert_eq!(s.on_next_iteration(), Err(BudgetError::IterationBudgetExceeded));
    assert_eq!(s.iteration(), 2);
}

#[test]
fn no_budget_never_fails() {
    let mut s = state(0);
    for _ in 0..10 {
        assert_eq!(s.on_next_iteration(), Ok(()));
    }
    assert_eq!(s.iteration(), 10);
}

#[test]
fn unknown_command_is_ignored() {
    let mut s = state(0);
    assert_eq!(s.execute(inv("fly-to-moon", "now")), Dispatch::Ignored);
    assert!(s.context().history().is_empty());
}

#[test]
fn example_payload_is_rejected() {
    let mut s = state(0);
    assert_eq!(s.execute(inv("remember", "something")), Dispatch::Rejected);
    let h = s.context().history();
    assert_eq!(h.len(), 1);
    assert_eq!(h[0].error, Some(MISUSE_MESSAGE.to_string()));
    assert_eq!(h[0].result, None);
    let memories = s.get_storage(&"memories".to_string()).unwrap();
    assert!(memories.items().is_empty());
}

#[test]
fn example_attributes_are_rejected() {
    let mut reg = registry();
    reg[0].actions[0].example_attributes =
        Some(vec![("a".to_string(), "1".to_string()), ("b".to_string(), "2".to_string())]);
    let mut s = State::new(task(None), reg, 0);
    let attrs = vec![("b".to_string(), "2".to_string()), ("a".to_string(), "1".to_string())];
    let i = Invocation::new("read-file".to_string(), Some(attrs), None);
    assert_eq!(s.execute(i), Dispatch::Rejected);
    assert_eq!(s.context().history()[0].error, Some(MISUSE_MESSAGE.to_string()));
}

#[test]
fn action_result_is_recorded() {
    let mut s = state(0);
    assert_eq!(s.execute(inv("read-file", "/tmp/a.txt")), Dispatch::Ran);
    let h = s.context().history();
    assert_eq!(h.len(), 1);
    assert_eq!(h[0].result, Some("/tmp/a.txt".to_string()));
    assert_eq!(h[0].error, None);
    assert_eq!(h[0].invocation.to_structured_string(), "<read-file>/tmp/a.txt</read-file>");
}

#[test]
fn action_error_is_recorded() {
    let mut s = state(0);
    assert_eq!(s.execute(inv("broken", "/x")), Dispatch::Ran);
    let h = s.context().history();
    assert_eq!(h[0].error, Some("it broke".to_string()));
    assert_eq!(h[0].result, None);
}

#[test]
fn actions_mutate_storage() {
    let mut s = state(0);
    s.execute(inv("remember", "first"));
    s.execute(inv("remember", "second"));
    let m = s.get_storage(&"memories".to_string()).unwrap();
    assert_eq!(m.items(), &vec!["first".to_string(), "second".to_string()]);
}

#[test]
fn goal_slot_holds_the_prompt() {
    let s = state(0);
    let goal = s.get_storage(&"goal".to_string()).unwrap();
    assert_eq!(goal.kind(), StorageKind::Single);
    assert_eq!(goal.items(), &vec!["find the file".to_string()]);
    let names: Vec<&str> = s.context().storages().iter().map(|x| x.name()).collect();
    assert_eq!(names, vec!["memories", "goal"]);
}

#[test]
fn namespaces_are_filtered_by_task() {
    let s = State::new(task(Some(vec!["Task"])), registry(), 0);
    assert_eq!(s.used_namespaces(), vec!["task".to_string()]);
    assert!(s.get_storage(&"memories".to_string()).is_none());
    let all = state(0);
    assert_eq!(
        all.used_namespaces(),
        vec!["filesystem".to_string(), "memory".to_string(), "task".to_string()]
    );
}

#[test]
fn completion_halts_remaining_invocations() {
    let mut s = state(0);
    let invs = vec![inv("task-complete", "done"), inv("read-file", "/a"), inv("read-file", "/b")];
    let executed = s.process_invocations(invs);
    assert_eq!(executed, vec![0]);
    assert!(s.is_complete());
    assert_eq!(s.context().history().len(), 1);
    assert_eq!(s.context().reason(), &Some("done".to_string()));
}

#[test]
fn consecutive_duplicates_run_once() {
    let mut s = state(0);
    let invs = vec![
        inv("read-file", "/a"),
        inv("read-file", "/a"),
        inv("read-file", "/b"),
        inv("read-file", "/a"),
    ];
    let executed = s.process_invocations(invs);
    assert_eq!(executed, vec![0, 2, 3]);
    assert_eq!(s.context().history().len(), 3);
}

#[test]
fn end_to_end_repeat_is_executed_once() {
    let mut s = state(0);
    let invs = parse_model_response(
        "<read-file>/tmp/a.txt</read-file> noise <read-file>/tmp/a.txt</read-file>",
    );
    assert_eq!(invs.len(), 2);
    let executed = s.process_invocations(invs);
    assert_eq!(executed, vec![0]);
    assert_eq!(s.context().history().len(), 1);
}

#[test]
fn completed_run_executes_nothing() {
    let mut s = state(0);
    s.on_complete(true, None);
    assert!(s.is_complete());
    assert!(s.context().is_impossible());
    let executed = s.process_invocations(vec![inv("read-file", "/a")]);
    assert!(executed.is_empty());
}

#[test]
fn pretty_string_orders_slots_and_shows_banner() {
    let mut s = state(3);
    s.execute(inv("remember", "note one"));
    assert_eq!(
        s.to_pretty_string(),
        "## goal\n\nfind the file\n\n## memories\n\n- note one\n\nYou are currently at step 1 of a maximum of 3.\n"
    );
    let unbounded = state(0);
    assert_eq!(unbounded.to_pretty_string(), "## goal\n\nfind the file\n\n## memories\n\n\n");
}

#[test]
fn banner_counts_in_decimal() {
    let mut s = State::new(task(Some(vec![])), registry(), 120);
    for _ in 0..104 {
        s.on_next_iteration().unwrap();
    }
    assert_eq!(s.to_pretty_string(), "\nYou are currently at step 105 of a maximum of 120.\n");
}

#[test]
fn catalogue_lists_actions_with_examples() {
    let s = State::new(task(Some(vec!["Task", "Memory"])), registry(), 0);
    assert_eq!(
        s.available_actions_to_string(),
        "## Memory\n\nRuns remember.\n<remember>something</remember>\n\n## Task\n\nRuns task-complete.\n<task-complete>reason</task-complete>\n\n"
    );
}

#[test]
fn system_prompt_layout() {
    let s = State::new(task(Some(vec!["Task"])), registry(), 2);
    assert_eq!(
        s.to_system_prompt(),
        "You are an agent.\n\n## goal\n\nfind the file\n\n\n## Guidance\n\n- be brief\n- be right\n\n## Task\n\nRuns task-complete.\n<task-complete>reason</task-complete>\n\nYou are currently at step 1 of a maximum of 2."
    );
    assert_eq!(s.to_prompt(), "find the file");
}

#[test]
fn chat_history_keeps_last_records() {
    let mut s = state(0);
    s.execute(inv("read-file", "/a"));
    s.execute(inv("broken", "/b"));
    s.execute(inv("read-file", "/c"));
    let msgs = s.to_chat_history(2);
    assert_eq!(msgs.len(), 4);
    assert_eq!(msgs[0].role, ChatRole::Assistant);
    assert_eq!(msgs[0].content, "<broken>/b</broken>");
    assert_eq!(msgs[1].role, ChatRole::User);
    assert_eq!(msgs[1].content, "ERROR: it broke");
    assert_eq!(msgs[3].content, "/c");
    assert_eq!(s.to_chat_history(10).len(), 6);
}

#[test]
fn permission_triplets() {
    assert_eq!(triplet(0o754, 0o400, 0o200, 0o100), "rwx");
    assert_eq!(triplet(0o754, 0o040, 0o020, 0o010), "r-x");
    assert_eq!(triplet(0o754, 0o004, 0o002, 0o001), "r--");
    assert_eq!(triplet(0o000, 0o004, 0o002, 0o001), "---");
    assert_eq!(triplet(0o003, 0o004, 0o002, 0o001), "-wx");
}

#[test]
fn single_step_decisions() {
    let mut s = state(0);
    let mut prev: Option<String> = None;
    assert_eq!(s.process_one(inv("read-file", "/a"), &mut prev), StepOutcome::Executed);
    assert_eq!(prev, Some("<read-file>/a</read-file>".to_string()));
    assert_eq!(s.process_one(inv("read-file", "/a"), &mut prev), StepOutcome::Skipped);
    assert_eq!(s.process_one(inv("task-complete", "ok"), &mut prev), StepOutcome::Executed);
    assert_eq!(s.process_one(inv("read-file", "/b"), &mut prev), StepOutcome::Halted);
    assert_eq!(s.context().history().len(), 2);
}
