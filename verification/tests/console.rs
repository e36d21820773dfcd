use mcbot::console::kill_report;
use mcbot::console::plan_console_command;
use mcbot::console::send_report;
use mcbot::console::start_report;
use mcbot::console::ConsoleStep;
use mcbot::permissions::DISCORD_ID_OWNER;

fn describe(step: ConsoleStep) -> String {
    match step {
        ConsoleStep::Ignore => "ignore".to_string(),
        ConsoleStep::Reply(t) => format!("reply {}", t),
        ConsoleStep::Send(t) => format!("send {}", t),
        ConsoleStep::Start => "start".to_string(),
        ConsoleStep::Kill => "kill".to_string(),
    }
}

fn plan(content: &str, author: u64) -> String {
    describe(plan_console_command(content, author))
}

const URL: &str = "reply https://media.discordapp.net/attachments/844851214760017970/1005224035598204948/runasadministrator.jpg";

#[test]
fn console_run_variants() {
    assert_eq!(plan("[mc].run say hi", DISCORD_ID_OWNER), "send say hi");
    assert_eq!(
        plan("[mc].run say hi", 7),
        "reply You must either run this command as administrator (owner) or without any arguments."
    );
    assert_eq!(plan("[mc].run", DISCORD_ID_OWNER), URL);
    assert_eq!(plan("[mc].run ", DISCORD_ID_OWNER), URL);
    assert_eq!(plan("[mc].run  ", DISCORD_ID_OWNER), "send  ");
}

#[test]
fn console_start_kill_and_others() {
    assert_eq!(plan("[mc].start", DISCORD_ID_OWNER), "start");
    assert_eq!(plan("[mc].start now", DISCORD_ID_OWNER), "start");
    assert_eq!(
        plan("[mc].start", 7),
        "reply You do not have permission to execute this command, consider hijacking the owner's discord account and trying again."
    );
    assert_eq!(plan("[mc].kill", 7), "kill");
    assert_eq!(plan("[mc].stop", DISCORD_ID_OWNER), "ignore");
    assert_eq!(plan("mc.start", DISCORD_ID_OWNER), "ignore");
}

#[test]
fn console_reports() {
    assert_eq!(send_report(false), "Done. Your command should be executed as soon as the child process reads it.");
    assert!(send_report(true).starts_with("There was an error while sending the command."));
    assert_eq!(start_report(true), "Server is starting...");
    assert_eq!(start_report(false), "Server could not be started. Check stdout to see the internal error.");
    assert_eq!(kill_report(None), "There was no process to kill.");
    assert_eq!(kill_report(Some(true)), "Killed the child process.");
    assert!(kill_report(Some(false)).starts_with("Child did not want to die."));
}
