use swiftcast::custom_task::{
    decide_intercept, generate_sse_response, list_response, parse_task_command, replace_all,
    sse_response_with_id, substitute_placeholders, task_result_response, unknown_task_response,
    CustomTaskHook, InterceptAction, TaskContext, TaskDefinition, TaskType,
};

fn shell_task(name: &str, command: &str) -> TaskDefinition {
    TaskDefinition {
        name: name.to_string(),
        description: format!("{} task", name),
        task_type: TaskType::Shell,
        command: Some(command.to_string()),
        working_dir: None,
        url: None,
        http_method: None,
        file_path: None,
        env: None,
    }
}

#[test]
fn test_parse_task_command() {
    assert_eq!(
        parse_task_command(">>swiftcast build"),
        Some(("build".to_string(), "".to_string()))
    );
    assert_eq!(
        parse_task_command(">>swiftcast deploy prod"),
        Some(("deploy".to_string(), "prod".to_string()))
    );
    assert_eq!(
        parse_task_command("hello >>swiftcast test arg1 arg2"),
        Some(("test".to_string(), "arg1 arg2".to_string()))
    );
    assert_eq!(parse_task_command("no task here"), None);
}

#[test]
fn directive_without_name_is_no_command() {
    assert_eq!(parse_task_command(">>swiftcast    "), None);
    assert_eq!(
        parse_task_command(">>swiftcast   run  a b  "),
        Some(("run".to_string(), "a b".to_string()))
    );
}

#[test]
fn replace_all_is_left_to_right() {
    assert_eq!(replace_all("aaa", "aa", "b"), "ba");
    assert_eq!(replace_all("x{args}y{args}", "{args}", "1"), "x1y1");
    assert_eq!(replace_all("none", "{args}", "1"), "none");
}

#[test]
fn command_interception_runs_the_echo_task() {
    let hook = CustomTaskHook::from_tasks(vec![shell_task("echo", "echo {args}")]);
    let action = hook.try_intercept(Some(">>swiftcast echo hello world"));
    let (index, args) = match action {
        InterceptAction::Run(i, a) => (i, a),
        other => panic!("expected a task run, got {:?}", other),
    };
    let task = &hook.list_tasks()[index];
    assert_eq!(task.name, "echo");
    let ctx = TaskContext {
        session_id: Some("s-1".to_string()),
        path: "/v1/messages".to_string(),
        model: "glm-4".to_string(),
        args,
    };
    let command = substitute_placeholders(task.command.as_deref().unwrap(), &ctx);
    assert_eq!(command, "echo hello world");
    let text = task_result_response(task, &Ok("```\nhello world\n```".to_string()));
    let sse = generate_sse_response(&text);
    assert!(sse.starts_with("event: message_start\n"));
    assert!(sse.contains("\"type\":\"content_block_delta\""));
    assert!(sse.contains("hello world"));
    assert!(sse.contains("\"stop_reason\":null"));
    assert!(sse.ends_with("event: message_stop\ndata: {\"type\":\"message_stop\"}\n\n"));
}

#[test]
fn reserved_and_unknown_names() {
    let tasks = vec![shell_task("echo", "echo {args}")];
    assert!(matches!(decide_intercept(Some(">>swiftcast list"), &tasks), InterceptAction::List));
    assert!(matches!(decide_intercept(Some(">>swiftcast reload"), &tasks), InterceptAction::Reload));
    match decide_intercept(Some(">>swiftcast nope x"), &tasks) {
        InterceptAction::Unknown(n) => assert_eq!(n, "nope"),
        other => panic!("unexpected {:?}", other),
    }
    assert!(matches!(decide_intercept(Some("plain message"), &tasks), InterceptAction::Pass));
    assert!(matches!(decide_intercept(None, &tasks), InterceptAction::Pass));
    assert_eq!(
        unknown_task_response("nope"),
        "Unknown task: 'nope'\n\nUse `>>swiftcast list` to see available tasks."
    );
}

#[test]
fn text_deltas_carry_at_most_fifty_characters() {
    let text: String = std::iter::repeat('a').take(120).collect();
    let sse = sse_response_with_id(&text, "msg_1");
    assert_eq!(sse.matches("event: content_block_delta").count(), 3);
    assert!(sse.contains(&format!("\"text\":\"{}\"", "a".repeat(50))));
    assert!(sse.contains(&format!("\"text\":\"{}\"", "a".repeat(20))));
    assert!(sse.contains("\"output_tokens\":30}"));
    assert!(sse.contains("\"id\":\"msg_1\""));
}

#[test]
fn delta_text_is_json_escaped() {
    let sse = sse_response_with_id("say \"hi\"\n", "m");
    assert!(sse.contains(r#""text":"say \"hi\"\n"}"#));
}

#[test]
fn fresh_message_ids_have_the_expected_shape() {
    let sse = generate_sse_response("x");
    let start = sse.find("\"id\":\"").unwrap() + 6;
    let id: String = sse[start..].chars().take_while(|c| *c != '"').collect();
    assert_eq!(id.len(), 28);
    assert!(id.starts_with("msg_"));
}

#[test]
fn listing_and_catalog_updates() {
    let mut hook = CustomTaskHook::new();
    assert_eq!(
        list_response(hook.list_tasks()),
        "## Available Custom Tasks\n\nNo custom tasks defined.\n\nAdd tasks to ~/.sessioncast/tasks.json"
    );
    hook.add_task(shell_task("a", "x"));
    hook.add_task(shell_task("b", "y"));
    hook.add_task(shell_task("a", "z"));
    assert_eq!(hook.list_tasks().len(), 2);
    assert_eq!(hook.list_tasks()[0].command.as_deref(), Some("z"));
    assert_eq!(
        list_response(hook.list_tasks()),
        "## Available Custom Tasks\n\n- **a**: a task (Shell)\n- **b**: b task (Shell)"
    );
    hook.remove_task("a");
    assert_eq!(hook.list_tasks().len(), 1);
    let dup = CustomTaskHook::from_tasks(vec![shell_task("a", "1"), shell_task("a", "2")]);
    assert_eq!(dup.list_tasks().len(), 1);
    assert_eq!(dup.list_tasks()[0].command.as_deref(), Some("2"));
}

#[test]
fn failed_task_report() {
    let t = shell_task("t", "false");
    assert_eq!(
        task_result_response(&t, &Err("boom".to_string())),
        "## Task Failed: t\n\nError: boom"
    );
}

#[test]
fn control_characters_are_escaped_as_unicode() {
    let sse = sse_response_with_id("a\u{1}b\\", "m");
    assert!(sse.contains(r#""text":"a\u0001b\\"}"#));
}

#[test]
fn unicode_white_space_separates_arguments() {
    assert_eq!(
        parse_task_command(">>swiftcast run\u{3000}a\u{2003}b\u{a0}"),
        Some(("run".to_string(), "a\u{2003}b".to_string()))
    );
}
