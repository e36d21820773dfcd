use mcbot::commands::plan_message;
use mcbot::commands::split_at_space;
use mcbot::commands::stop_report;
use mcbot::commands::Step;
use mcbot::permissions::DcUser;
use mcbot::permissions::DcUserPerms;
use mcbot::permissions::DISCORD_ID_OWNER;
use mcbot::server_config::DefaultServerConfig;

fn describe(steps: Vec<Step>) -> Vec<String> {
    steps
        .into_iter()
        .map(|s| match s {
            Step::Reply(t) => format!("reply {}", t),
            Step::StopServer => "stop".to_string(),
            Step::LaunchServer(c) => format!("launch {:?}", c),
            Step::StopServerAndReport => "stop and report".to_string(),
            Step::SendToServer(t) => format!("send {}", t),
        })
        .collect()
}

fn plan(content: &str, has_server: bool, user: u64) -> Vec<String> {
    let mut perms = DcUserPerms::new(DcUser { id: user });
    describe(plan_message(content, has_server, &mut perms))
}

const OTHER: u64 = 12345;

#[test]
fn split_keeps_inner_empty_words() {
    assert_eq!(split_at_space("start 1.19"), vec!["start", "1.19"]);
    assert_eq!(split_at_space(""), Vec::<String>::new());
    assert_eq!(split_at_space(" "), vec![""]);
    assert_eq!(split_at_space("a  b "), vec!["a", "", "b"]);
    assert_eq!(split_at_space("run say hi"), vec!["run", "say", "hi"]);
}

#[test]
fn ignores_other_messages() {
    assert!(plan("hello", true, DISCORD_ID_OWNER).is_empty());
    assert!(plan("mc.", true, DISCORD_ID_OWNER).is_empty());
    assert!(plan("mc.help", false, DISCORD_ID_OWNER).is_empty());
    assert!(plan("MC.kill", true, DISCORD_ID_OWNER).is_empty());
}

#[test]
fn start_needs_a_type() {
    assert_eq!(plan("mc.start", false, DISCORD_ID_OWNER), vec![format!("reply {}", mcbot::commands::NO_SERVER_TYPE)]);
    assert!(plan("mc.start", true, DISCORD_ID_OWNER).is_empty());
}

#[test]
fn start_rejects_unknown_type() {
    assert_eq!(
        plan("mc.start 1.18", false, DISCORD_ID_OWNER),
        vec!["reply Only '1.19' and '1.19.2' are valid server types.".to_string()]
    );
}

#[test]
fn owner_starts_server() {
    assert_eq!(plan("mc.start 1.19", false, DISCORD_ID_OWNER), vec!["launch Mc1_19_0"]);
    assert_eq!(plan("mc.start 1.19.2 extra", false, DISCORD_ID_OWNER), vec!["launch Mc1_19_2"]);
    assert_eq!(
        plan("mc.start Grapher", true, DISCORD_ID_OWNER),
        vec!["reply Killing the old server.", "stop", "launch Grapher"]
    );
}

#[test]
fn others_may_not_start() {
    assert_eq!(
        plan("mc.start 1.19", false, OTHER),
        vec!["reply You do not have permission to start this kind of server."]
    );
    assert_eq!(
        plan("mc.start 1.19", true, OTHER),
        vec![
            "reply Killing the old server.",
            "stop",
            "reply You do not have permission to start this kind of server."
        ]
    );
}

#[test]
fn kill_with_and_without_server() {
    assert_eq!(plan("mc.kill", true, OTHER), vec!["stop and report"]);
    assert_eq!(plan("mc.kill now", true, OTHER), vec!["stop and report"]);
    assert_eq!(plan("mc.kill", false, OTHER), vec!["reply No server bound to this channel."]);
    assert_eq!(stop_report(true), "Forcibly stopping your server. This might take a few seconds.");
    assert_eq!(stop_report(false), "Server isn't running.");
}

#[test]
fn run_sends_rest_of_message() {
    assert_eq!(plan("mc.run say hello  world", true, OTHER), vec!["send say hello  world"]);
    assert_eq!(plan("mc.run ", true, OTHER), vec!["send "]);
    assert!(plan("mc.run say hi", false, OTHER).is_empty());
    assert!(plan("mc.run", false, OTHER).is_empty());
    assert!(plan("mc.runner x", true, OTHER).is_empty());
}

#[test]
fn permissions_are_asked_only_for_a_known_type() {
    let mut perms = DcUserPerms::new(DcUser { id: DISCORD_ID_OWNER });
    let _ = plan_message("mc.start 1.18", false, &mut perms);
    assert_eq!(perms.get_user().id, DISCORD_ID_OWNER);
    assert!(perms.is_admin());
    let mut perms = DcUserPerms::new(DcUser { id: OTHER });
    assert!(!perms.is_admin());
    assert!(!perms.is_admin());
    let _ = DefaultServerConfig::Grapher;
}
