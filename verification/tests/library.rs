use flows::cmd::{
    apply_capture, env_request, evaluate_cmd_value, execute_and_get, execute_cmd, get_secret, get_var,
    placeholders, EvaluatedCmd, PlaceholderCapture, ProcessOutcome,
};
use flows::config::{
    config_layout, get_config_dir_path, get_config_icons_path, get_config_path, get_home_dir, insert_entry,
    AppConfig, Cmd, CmdGrp, Command, Navigation,
};
use flows::errors::AppErrors;
use flows::events::{command_requested, completion_event, launch_script, CommandExecutionEvent};
use flows::menu::{
    commands, menu_layout, navigations, quit, remove_command_items, remove_items, remove_navigation_items,
    remove_show_hide_view_item, show_hide_view_item, update_tray_menu, MenuIcon, MenuItemIds, TopLevel,
};
use flows::process::{get_children, ProcessInfo};
use flows::state::AppStateInner;
use flows::text::{first_part, is_whitespace, replace, split_once, trim_text};
use flows::tray::{
    error_dialog, icon_click_action, menu_event_task, open_directory_command, startup_error_dialog, TrayAction,
    WindowAction,
};

fn s(x: &str) -> String {
    x.to_string()
}

fn sample_config() -> AppConfig {
    AppConfig {
        variables: vec![(s("NAME"), s("bob")), (s("DIR"), s("/tmp"))],
        secrets: vec![(s("TOKEN"), s("s3cr3t"))],
        path: s("/usr/bin:/bin"),
        navigations: vec![],
        commands: vec![],
    }
}

fn finished(out: &str) -> ProcessOutcome {
    ProcessOutcome::Finished { success: true, stdout: out.as_bytes().to_vec() }
}

#[test]
fn replace_every_occurrence() {
    assert_eq!(replace("a-b-c", "-", "+"), "a+b+c");
    assert_eq!(replace("aaaa", "aa", "b"), "bb");
    assert_eq!(replace("abc", "x", "y"), "abc");
    assert_eq!(replace("ab", "", "x"), "xaxbx");
    assert_eq!(replace("", "", "x"), "x");
}

#[test]
fn split_and_first_part() {
    assert_eq!(split_once("a||b||c", "||"), Some((s("a"), s("b||c"))));
    assert_eq!(split_once("abc", "||"), None);
    assert_eq!(first_part("b||c", "||"), "b");
    assert_eq!(first_part("bc", "||"), "bc");
}

#[test]
fn trim_whitespace() {
    assert_eq!(trim_text("  hello world \n"), "hello world");
    assert_eq!(trim_text(" \t\n"), "");
    assert_eq!(trim_text("x"), "x");
}

#[test]
fn config_paths() {
    assert_eq!(get_config_dir_path("/home/u"), "/home/u/.wfapp");
    assert_eq!(get_config_path("/home/u"), "/home/u/.wfapp/config.json");
    assert_eq!(get_config_icons_path("/home/u", "web.png"), "/home/u/.wfapp/icons/web.png");
    let layout = config_layout("/home/u");
    assert_eq!(layout.dir, "/home/u/.wfapp");
    assert_eq!(layout.config_file, "/home/u/.wfapp/config.json");
    assert_eq!(layout.icons_dir, "/home/u/.wfapp/icons");
}

#[test]
fn home_dir_from_output() {
    assert_eq!(get_home_dir(Ok(b"/home/u\n".to_vec())), Ok(s("/home/u")));
    assert_eq!(get_home_dir(Ok(vec![0xff, 0xfe])), Err(AppErrors::FailedToReadHome));
    assert_eq!(get_home_dir(Err(s("no shell"))), Err(AppErrors::FailedToReadConfigFile(s("no shell"))));
}

#[test]
fn default_config_is_empty() {
    let c = AppConfig::default();
    assert!(c.variables.is_empty() && c.secrets.is_empty() && c.path.is_empty());
    assert!(c.navigations.is_empty() && c.commands.is_empty());
}

#[test]
fn error_messages() {
    assert_eq!(AppErrors::FailedToReadHome.message(), "Failed to read $HOME environment variable");
    assert_eq!(AppErrors::FailedToReadConfigFile(s("x")).message(), "Failed to read config file");
    assert_eq!(AppErrors::FailedToParseConfig(s("bad json")).message(), "bad json");
    assert_eq!(AppErrors::EnvNotFound(s("HOME")).message(), "Env HOME not found");
    assert_eq!(AppErrors::VarNotFound(s("A")).message(), "Variable A not found");
    assert_eq!(AppErrors::SecretNotFound(s("B")).message(), "Secret B not found");
    assert_eq!(AppErrors::EmitEventError(s("e")).message(), "e");
    assert_eq!(AppErrors::FailedToCloseApp(s("e")).message(), "Failed to close app (e)");
    assert_eq!(AppErrors::FailedToShowApp(s("e")).message(), "Failed to show app (e)");
    assert_eq!(AppErrors::FailedToHideApp(s("e")).message(), "Failed to hide app (e)");
    assert_eq!(AppErrors::FailedToFocusOnAppView(s("e")).message(), "Failed to focus on app view (e)");
    assert_eq!(AppErrors::FailedToExecuteCommand(s("ls")).message(), "Failed to execute command:\nls");
    assert_eq!(AppErrors::CommandFailed(s("oops")).message(), "oops");
    assert_eq!(AppErrors::FailedToSetTrayMenu.message(), "Failed to set tray menu");
    assert_eq!(AppErrors::FailedToRemoveTrayMenuItem(s("i")).message(), "Failed to remove tray menu item i");
    assert_eq!(AppErrors::FailedToRetrieveMenuItems.message(), "Failed to retrieve tray menu items");
    assert_eq!(AppErrors::FailedToCreateItem(s("i")).message(), "Failed to create tray menu item i");
    assert_eq!(AppErrors::FailedToInsertMenuItem(s("i")).message(), "Failed to insert tray menu item i");
    assert_eq!(AppErrors::FailedToOpenUrl(s("u")).message(), "Failed to open url u");
}

#[test]
fn placeholders_found_in_order() {
    let caps = placeholders("echo ${vars.NAME} ${secrets.TOKEN} ${param.x} ${env.HOME}").unwrap();
    assert_eq!(caps.len(), 4);
    assert_eq!(caps[0], PlaceholderCapture { envs: None, variables: Some(s("${vars.NAME}")), secrets: None, params: None });
    assert_eq!(caps[1].secrets, Some(s("${secrets.TOKEN}")));
    assert_eq!(caps[2].params, Some(s("${param.x}")));
    assert_eq!(caps[3].envs, Some(s("${env.HOME}")));
    assert!(placeholders("no placeholder here").unwrap().is_empty());
}

#[test]
fn env_request_command() {
    let caps = placeholders("cd ${env.HOME}").unwrap();
    assert_eq!(env_request(&caps[0]), Some(s("echo $HOME")));
    let caps = placeholders("cd ${vars.DIR}").unwrap();
    assert_eq!(env_request(&caps[0]), None);
}

#[test]
fn evaluate_substitutes_and_masks() {
    let cmd = "echo ${vars.NAME} ${secrets.TOKEN} ${param.x} ${env.HOME} ${vars.NAME}";
    let caps = placeholders(cmd).unwrap();
    let r = evaluate_cmd_value(cmd, &caps, &sample_config(), &vec![finished("/home/u\n")]).unwrap();
    assert_eq!(r.original_cmd, "echo bob s3cr3t ${param.x} /home/u bob");
    assert_eq!(r.modified_cmd, "echo bob ******** ${param.x} /home/u bob");
    assert_eq!(r.parameters, Some(vec![s("x")]));
}

#[test]
fn evaluate_without_placeholders() {
    let r = evaluate_cmd_value("ls -la", &vec![], &sample_config(), &vec![]).unwrap();
    assert_eq!(r, EvaluatedCmd { original_cmd: s("ls -la"), modified_cmd: s("ls -la"), parameters: None });
}

#[test]
fn evaluate_errors() {
    let config = sample_config();
    let cmd = "echo ${vars.MISSING}";
    let r = evaluate_cmd_value(cmd, &placeholders(cmd).unwrap(), &config, &vec![]);
    assert_eq!(r, Err(AppErrors::VarNotFound(s("MISSING"))));
    let cmd = "echo ${secrets.NOPE}";
    let r = evaluate_cmd_value(cmd, &placeholders(cmd).unwrap(), &config, &vec![]);
    assert_eq!(r, Err(AppErrors::SecretNotFound(s("NOPE"))));
    let cmd = "echo ${env.EMPTY}";
    let r = evaluate_cmd_value(cmd, &placeholders(cmd).unwrap(), &config, &vec![finished("\n")]);
    assert_eq!(r, Err(AppErrors::EnvNotFound(s("EMPTY"))));
    let failed = ProcessOutcome::Finished { success: false, stdout: vec![] };
    let r = evaluate_cmd_value(cmd, &placeholders(cmd).unwrap(), &config, &vec![failed]);
    assert_eq!(r, Err(AppErrors::CommandFailed(s("Failed to get env variable"))));
    let r = evaluate_cmd_value(
        cmd,
        &placeholders(cmd).unwrap(),
        &config,
        &vec![ProcessOutcome::SpawnFailed(s("no shell"))],
    );
    assert_eq!(r, Err(AppErrors::FailedToExecuteCommand(s(" Failed to execute command echo $EMPTY, (no shell)"))));
}

#[test]
fn apply_capture_step_by_step() {
    let cmd = "run ${param.a} ${param.b}";
    let caps = placeholders(cmd).unwrap();
    let mut acc = EvaluatedCmd { original_cmd: s(cmd), modified_cmd: s(cmd), parameters: None };
    for cap in caps.iter() {
        acc = apply_capture(acc, cap, &sample_config(), None).unwrap();
    }
    assert_eq!(acc.parameters, Some(vec![s("a"), s("b")]));
    assert_eq!(acc.original_cmd, cmd);
}

#[test]
fn variables_and_secrets_lookup() {
    let config = sample_config();
    assert_eq!(get_var(&config, &s("DIR")), Ok(s("/tmp")));
    assert_eq!(get_var(&config, &s("X")), Err(AppErrors::VarNotFound(s("X"))));
    assert_eq!(get_secret(&config, &s("TOKEN")), Ok(s("s3cr3t")));
    assert_eq!(get_secret(&config, &s("NAME")), Err(AppErrors::SecretNotFound(s("NAME"))));
}

#[test]
fn run_outcomes() {
    assert_eq!(execute_cmd("open /x", &finished(""), "failed"), Ok(()));
    assert_eq!(
        execute_cmd("open /x", &ProcessOutcome::Finished { success: false, stdout: vec![] }, "failed"),
        Err(AppErrors::CommandFailed(s("failed")))
    );
    assert_eq!(
        execute_cmd("open /x", &ProcessOutcome::SpawnFailed(s("denied")), "failed"),
        Err(AppErrors::FailedToExecuteCommand(s(" Failed to execute command open /x \n (denied)")))
    );
    assert_eq!(
        execute_and_get("echo $A", &finished("  v \n"), "failed", AppErrors::EnvNotFound(s("A"))),
        Ok(s("v"))
    );
    assert_eq!(
        execute_and_get(
            "echo $A",
            &ProcessOutcome::Finished { success: true, stdout: vec![0xc3] },
            "failed",
            AppErrors::EnvNotFound(s("A"))
        ),
        Err(AppErrors::FailedToReadHome)
    );
}

#[test]
fn menu_ids_read_back() {
    let ids = vec![
        MenuItemIds::Quit,
        MenuItemIds::Config,
        MenuItemIds::ReloadConfig,
        MenuItemIds::Navigations,
        MenuItemIds::Commands,
        MenuItemIds::ShowView,
        MenuItemIds::HideView,
        MenuItemIds::CommandGroup(s("Deploy")),
    ];
    for id in ids {
        let text = id.to_id_string();
        assert!(MenuItemIds::is_valid_id(&text));
        assert_eq!(MenuItemIds::from_id(&text), id);
    }
    let open = MenuItemIds::Open { id: s("Open_Google"), url: s("https://google.com") };
    assert_eq!(open.to_id_string(), "Open_Google||https://google.com");
    assert_eq!(
        MenuItemIds::from_id(&open.to_id_string()),
        MenuItemIds::Open { id: s("Google"), url: s("https://google.com") }
    );
    let cmd = MenuItemIds::Cmd { id: s("Cmd_List"), cmd: s("ls -la") };
    assert_eq!(MenuItemIds::from_id(&cmd.to_id_string()), MenuItemIds::Cmd { id: s("List"), cmd: s("ls -la") });
}

#[test]
fn menu_ids_edge_cases() {
    assert!(!MenuItemIds::is_valid_id("bogus"));
    assert!(!MenuItemIds::is_valid_id("Open_x"));
    assert!(MenuItemIds::is_valid_id("Cmd_x||"));
    assert_eq!(
        MenuItemIds::from_id("Cmd_a||echo a || echo b"),
        MenuItemIds::Cmd { id: s("a"), cmd: s("echo a ") }
    );
    assert_eq!(MenuItemIds::from_id("Open_Open_x||u"), MenuItemIds::Open { id: s("x"), url: s("u") });
}

#[test]
fn navigation_entries() {
    let navs = vec![
        Navigation { name: s("Google"), url: s("https://google.com"), icon: None },
        Navigation { name: s("Mail"), url: s("https://mail.com"), icon: Some(s("mail.png")) },
    ];
    let entries = navigations(&navs, "/home/u");
    assert_eq!(entries.len(), 2);
    assert_eq!(entries[0].id, MenuItemIds::Open { id: s("Open_Google"), url: s("https://google.com") });
    assert_eq!(entries[0].text, "GOOGLE");
    assert_eq!(entries[0].icon, MenuIcon::DefaultWeb);
    assert_eq!(entries[1].icon, MenuIcon::File(s("/home/u/.wfapp/icons/mail.png")));
    assert!(entries[1].enabled);
}

#[test]
fn command_entries_groups_first() {
    let cmds = vec![
        Command::Simple(Cmd { name: s("List"), cmd: s("ls") }),
        Command::Group(CmdGrp { name: s("Git"), commands: vec![Cmd { name: s("Status"), cmd: s("git status") }] }),
        Command::Simple(Cmd { name: s("Pwd"), cmd: s("pwd") }),
    ];
    let menu = commands(&cmds);
    assert_eq!(menu.groups.len(), 1);
    assert_eq!(menu.groups[0].id, MenuItemIds::CommandGroup(s("Git")));
    assert_eq!(menu.groups[0].entries[0].id, MenuItemIds::Cmd { id: s("Cmd_Status"), cmd: s("git status") });
    assert_eq!(menu.entries.len(), 2);
    assert_eq!(menu.entries[0].text, "List");
    assert_eq!(menu.entries[1].id, MenuItemIds::Cmd { id: s("Cmd_Pwd"), cmd: s("pwd") });
    assert_eq!(menu.entries[1].icon, MenuIcon::CommandIcon);
}

#[test]
fn top_level_layout() {
    let layout = menu_layout();
    assert_eq!(layout.len(), 9);
    assert_eq!(layout[0], TopLevel::NavigationsMenu);
    assert_eq!(layout[8], TopLevel::Item(quit()));
    assert_eq!(quit().text, "📴 Close app");
    assert_eq!(show_hide_view_item(true, false).id, MenuItemIds::ShowView);
    assert_eq!(show_hide_view_item(false, true).text, "🙈 Hide the view");
}

#[test]
fn menu_positions() {
    let ids = vec![s("Navigations"), s("sep"), s("Commands"), s("hide_view"), s("sep"), s("Quit")];
    assert_eq!(remove_show_hide_view_item(&ids), Some(3));
    assert_eq!(remove_navigation_items(&ids), (Some(0), 0));
    assert_eq!(remove_command_items(&ids), (Some(2), 2));
    assert_eq!(remove_items(&ids, "Config"), (None, 0));
    assert_eq!(remove_show_hide_view_item(&vec![s("Quit")]), None);
}

#[test]
fn tray_update_after_show() {
    let u = update_tray_menu(true, true, 7);
    assert_eq!(u.inserted, "hide_view");
    assert_eq!(u.removed, "show_view");
    assert_eq!(u.item.id, MenuItemIds::HideView);
    assert!(u.item.enabled);
    assert_eq!(u.position, 6);
    let u = update_tray_menu(false, false, 1);
    assert_eq!(u.item.id, MenuItemIds::ShowView);
    assert_eq!(u.position, 0);
}

#[test]
fn state_register_stop_hide() {
    let mut st: AppStateInner<()> = AppStateInner::new(sample_config());
    assert!(!st.view_visible && st.running_commands.is_empty() && st.menu.is_none());
    st.register_command(s("c1"), s("ls"), 42);
    st.register_command(s("c2"), s("pwd"), 43);
    assert!(st.view_visible);
    let stopped = st.stop_command(&s("c1")).unwrap();
    assert_eq!(stopped.pid, 42);
    assert_eq!(st.running_commands.len(), 1);
    assert_eq!(st.stop_command(&s("nope")), None);
    st.hide_view(true);
    assert!(st.view_visible);
    st.hide_view(false);
    assert!(!st.view_visible);
}

#[test]
fn process_tree() {
    let procs = vec![
        ProcessInfo { pid: 1, parent: None },
        ProcessInfo { pid: 10, parent: Some(1) },
        ProcessInfo { pid: 11, parent: Some(10) },
        ProcessInfo { pid: 12, parent: Some(10) },
        ProcessInfo { pid: 13, parent: Some(11) },
        ProcessInfo { pid: 20, parent: Some(1) },
    ];
    assert_eq!(get_children(10, &procs), vec![10, 11, 13, 12]);
    assert_eq!(get_children(13, &procs), vec![13]);
    assert_eq!(get_children(99, &procs), vec![99]);
}

#[test]
fn command_events() {
    assert_eq!(launch_script("/usr/bin", "ls"), "export PATH='/usr/bin' && ls");
    assert_eq!(
        completion_event(true, Some(0), 15, vec![]),
        CommandExecutionEvent::CommandEnded { duration: 15, status_code: 0 }
    );
    assert_eq!(
        completion_event(false, None, 3, vec![s("boom")]),
        CommandExecutionEvent::CommandFailed { errors_lines: vec![s("boom")], duration: 3, status_code: -1 }
    );
    assert_eq!(
        completion_event(false, Some(2), 3, vec![]),
        CommandExecutionEvent::CommandEnded { duration: 3, status_code: 2 }
    );
    let evaluated = EvaluatedCmd { original_cmd: s("a s"), modified_cmd: s("a *"), parameters: None };
    let req = command_requested(s("id-1"), "Cmd_List", evaluated);
    assert_eq!(req.command_label, "List");
    assert_eq!(req.command_value, "a *");
    assert_eq!(req.command_to_execute, "a s");
}

#[test]
fn tray_tasks_and_dialogs() {
    let t = menu_event_task(MenuItemIds::Quit).unwrap();
    assert_eq!(t.title, "Close Application");
    assert_eq!(t.action, TrayAction::CloseApp);
    let t = menu_event_task(MenuItemIds::Open { id: s("G"), url: s("https://g.com") }).unwrap();
    assert_eq!(t.title, "Open https://g.com");
    assert_eq!(t.action, TrayAction::OpenUrl(s("https://g.com")));
    assert_eq!(menu_event_task(MenuItemIds::Config).unwrap().title, "Open Configuration Directory");
    assert_eq!(menu_event_task(MenuItemIds::ReloadConfig).unwrap().title, "Reload Configuration");
    assert_eq!(menu_event_task(MenuItemIds::ShowView).unwrap().title, "Show View");
    assert_eq!(menu_event_task(MenuItemIds::HideView).unwrap().title, "Hide View");
    assert_eq!(menu_event_task(MenuItemIds::Cmd { id: s("x"), cmd: s("ls") }).unwrap().title, "Execute Command");
    assert!(menu_event_task(MenuItemIds::Navigations).is_none());
    assert!(menu_event_task(MenuItemIds::CommandGroup(s("g"))).is_none());
    assert_eq!(open_directory_command("/home/u/.wfapp"), "open /home/u/.wfapp");
    let (title, message) = error_dialog("Show View", &AppErrors::FailedToShowApp(s("x")));
    assert_eq!(title, "SHOW VIEW");
    assert_eq!(message, "Failed to show app (x)");
    let (title, message) = startup_error_dialog(&AppErrors::FailedToParseConfig(s("bad")));
    assert_eq!(title, "FAILED TO RETRIEVE CONFIGURATION");
    assert_eq!(message, "👉 bad");
    assert_eq!(icon_click_action(true, true), Some(WindowAction::Hide));
    assert_eq!(icon_click_action(true, false), Some(WindowAction::Show));
    assert_eq!(icon_click_action(false, true), None);
}

#[test]
fn whitespace_matches_std() {
    for u in 0u32..0x110000 {
        if let Some(c) = char::from_u32(u) {
            assert_eq!(is_whitespace(c), c.is_whitespace(), "U+{:04X}", u);
        }
    }
}

#[test]
fn shown_command_ignores_secret_values() {
    let cmd = "deploy ${secrets.TOKEN} ${vars.NAME} ${param.env}";
    let caps = placeholders(cmd).unwrap();
    let mut other = sample_config();
    other.secrets = vec![(s("TOKEN"), s("another-value"))];
    let a = evaluate_cmd_value(cmd, &caps, &sample_config(), &vec![]).unwrap();
    let b = evaluate_cmd_value(cmd, &caps, &other, &vec![]).unwrap();
    assert_eq!(a.modified_cmd, b.modified_cmd);
    assert_eq!(a.parameters, b.parameters);
    assert_ne!(a.original_cmd, b.original_cmd);
    assert_eq!(b.original_cmd, "deploy another-value bob ${param.env}");
}

#[test]
fn nothing_masked_without_secrets() {
    let cmd = "cd ${vars.DIR} && echo ${vars.NAME} ${env.HOME}";
    let caps = placeholders(cmd).unwrap();
    let r = evaluate_cmd_value(cmd, &caps, &sample_config(), &vec![finished("  /home/u \n")]).unwrap();
    assert_eq!(r.original_cmd, r.modified_cmd);
    assert_eq!(r.original_cmd, "cd /tmp && echo bob /home/u");
}

#[test]
fn process_tree_each_descendant_once() {
    let procs = vec![
        ProcessInfo { pid: 5, parent: Some(1) },
        ProcessInfo { pid: 6, parent: Some(5) },
        ProcessInfo { pid: 7, parent: Some(5) },
        ProcessInfo { pid: 8, parent: Some(6) },
        ProcessInfo { pid: 9, parent: Some(7) },
        ProcessInfo { pid: 3, parent: None },
    ];
    let mut found = get_children(5, &procs);
    assert_eq!(found, vec![5, 6, 8, 7, 9]);
    found.sort();
    found.dedup();
    assert_eq!(found.len(), 5);
}

#[test]
fn tray_update_plan_layout() {
    let ids = vec![s("Navigations"), s("Commands"), s("show_view"), s("sep1"), s("Quit")];
    let p = remove_show_hide_view_item(&ids).unwrap();
    let mut after: Vec<String> = ids.clone();
    after.remove(p);
    after.remove(p);
    let u = update_tray_menu(true, true, after.len());
    after.insert(u.position, s(u.inserted));
    after.insert(u.position + 1, s("sep2"));
    assert_eq!(after, vec![s("Navigations"), s("Commands"), s("hide_view"), s("sep2"), s("Quit")]);
}

#[test]
fn insert_entry_like_a_map() {
    let mut e: Vec<(String, String)> = vec![];
    assert_eq!(insert_entry(&mut e, s("A"), s("1")), None);
    assert_eq!(insert_entry(&mut e, s("B"), s("2")), None);
    assert_eq!(insert_entry(&mut e, s("A"), s("3")), Some(s("1")));
    assert_eq!(e, vec![(s("A"), s("3")), (s("B"), s("2"))]);
}

#[test]
fn plain_command_has_no_placeholders() {
    let cmd = "ls -la $HOME {vars.X}";
    let caps = placeholders(cmd).unwrap();
    assert!(caps.is_empty());
    let r = evaluate_cmd_value(cmd, &caps, &sample_config(), &vec![]).unwrap();
    assert_eq!(r, EvaluatedCmd { original_cmd: s(cmd), modified_cmd: s(cmd), parameters: None });
}

#[test]
fn placeholder_matches_come_from_the_command() {
    let cmd = "a ${env.HOME} b ${secrets.K} c ${param.p}";
    let caps = placeholders(cmd).unwrap();
    assert_eq!(caps.len(), 3);
    assert_eq!(caps[0].envs, Some(s("${env.HOME}")));
    assert_eq!(caps[1].secrets, Some(s("${secrets.K}")));
    assert_eq!(caps[2].params, Some(s("${param.p}")));
    assert!(caps[0].secrets.is_none() && caps[1].envs.is_none() && caps[2].variables.is_none());
}

#[test]
fn secret_names_in_another_order_show_the_same() {
    let cmd = "run ${secrets.A} ${secrets.B}";
    let caps = placeholders(cmd).unwrap();
    let mut c1 = sample_config();
    c1.secrets = vec![(s("A"), s("1")), (s("B"), s("2"))];
    let mut c2 = sample_config();
    c2.secrets = vec![(s("B"), s("x")), (s("A"), s("y"))];
    let a = evaluate_cmd_value(cmd, &caps, &c1, &vec![]).unwrap();
    let b = evaluate_cmd_value(cmd, &caps, &c2, &vec![]).unwrap();
    assert_eq!(a.modified_cmd, b.modified_cmd);
    assert_eq!(a.modified_cmd, "run ******** ********");
    assert_eq!(b.original_cmd, "run y x");
}
