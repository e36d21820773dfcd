use mcbot::server_config::stdin_line;
use mcbot::server_config::DefaultServerConfig;
use mcbot::server_config::MinecraftServer;

#[test]
fn config_names() {
    assert_eq!(MinecraftServer::default_server_config_from_str("Grapher"), Ok(DefaultServerConfig::Grapher));
    assert_eq!(MinecraftServer::default_server_config_from_str("1.19"), Ok(DefaultServerConfig::Mc1_19_0));
    assert_eq!(MinecraftServer::default_server_config_from_str("1.19.2"), Ok(DefaultServerConfig::Mc1_19_2));
    assert_eq!(
        MinecraftServer::default_server_config_from_str("1.19.3"),
        Err("Only '1.19' and '1.19.2' are valid server types.".to_string())
    );
    assert!(MinecraftServer::default_server_config_from_str("").is_err());
    assert!(MinecraftServer::default_server_config_from_str("grapher").is_err());
}

#[test]
fn default_launches() {
    let s = MinecraftServer::new_default(DefaultServerConfig::Mc1_19_2);
    assert_eq!(s.java_command, "java");
    assert_eq!(s.path_to_jar_dir, "/home/mark/Downloads/");
    assert_eq!(s.args, vec!["-jar", "minecraft-server-1.19.2.jar", "--nogui"]);
    let s = MinecraftServer::new_default(DefaultServerConfig::Mc1_19_0);
    assert_eq!(s.path_to_jar_dir, "/media/mark/mcsrv/minecraft_server/1_19_0");
    assert_eq!(s.args, vec!["-jar", "server.jar", "--nogui"]);
    let s = MinecraftServer::new_default(DefaultServerConfig::Grapher);
    assert_eq!(s.args, vec!["-jar", "Grapher.jar"]);
}

#[test]
fn custom_launch() {
    let s = MinecraftServer::new(
        "java17".to_string(),
        "-jar".to_string(),
        "/srv".to_string(),
        "a.jar".to_string(),
        vec!["-Xmx2G".to_string(), "nogui".to_string()],
    );
    assert_eq!(s.java_command, "java17");
    assert_eq!(s.path_to_jar_dir, "/srv");
    assert_eq!(s.args, vec!["-jar", "a.jar", "-Xmx2G", "nogui"]);
}

#[test]
fn stdin_line_ends_with_newline() {
    assert_eq!(stdin_line("say hi"), "say hi\n");
    assert_eq!(stdin_line(""), "\n");
}
