//! Which Minecraft (or other Java) server the bot can launch, and how.
use vstd::prelude::*;
use vstd::string::StringExecFns;

use crate::text::same_text;
use crate::text::texts;

verus! {

/// The servers that the bot knows how to launch.
#[derive(PartialEq, Eq, Structural, Clone, Copy, Debug)]
pub enum DefaultServerConfig {
    Grapher,
    Mc1_19_0,
    Mc1_19_2,
}

/// The reply to a server type that the bot does not know.
pub const UNKNOWN_SERVER_TYPE: &'static str = "Only '1.19' and '1.19.2' are valid server types.";

/// The server that a chat command names: `Grapher`, `1.19` or `1.19.2`.
pub open spec fn config_named(name: Seq<char>) -> Option<DefaultServerConfig> {
    if name == "Grapher"@ {
        Some(DefaultServerConfig::Grapher)
    } else if name == "1.19"@ {
        Some(DefaultServerConfig::Mc1_19_0)
    } else if name == "1.19.2"@ {
        Some(DefaultServerConfig::Mc1_19_2)
    } else {
        None
    }
}

/// The directory that holds the jar of `config`.
pub open spec fn jar_dir(config: DefaultServerConfig) -> Seq<char> {
    match config {
        DefaultServerConfig::Grapher => "/run/media/mark/Samsung_T5/Code/Java_IntelliJ/Java/Grapher/out/artifacts/Grapher_jar/"@,
        DefaultServerConfig::Mc1_19_0 => "/media/mark/mcsrv/minecraft_server/1_19_0"@,
        DefaultServerConfig::Mc1_19_2 => "/home/mark/Downloads/"@,
    }
}

/// The file name of the jar of `config`.
pub open spec fn jar_name(config: DefaultServerConfig) -> Seq<char> {
    match config {
        DefaultServerConfig::Grapher => "Grapher.jar"@,
        DefaultServerConfig::Mc1_19_0 => "server.jar"@,
        DefaultServerConfig::Mc1_19_2 => "minecraft-server-1.19.2.jar"@,
    }
}

/// The arguments that `config` passes after the jar: Minecraft servers run without their window.
pub open spec fn extra_args(config: DefaultServerConfig) -> Seq<Seq<char>> {
    match config {
        DefaultServerConfig::Grapher => seq![],
        DefaultServerConfig::Mc1_19_0 => seq!["--nogui"@],
        DefaultServerConfig::Mc1_19_2 => seq!["--nogui"@],
    }
}

/// How to launch a server: the Java program, the directory to run it in,
/// and its arguments. The process gets piped standard input, output and error.
pub struct MinecraftServer {
    pub java_command: String,
    pub path_to_jar_dir: String,
    pub args: Vec<String>,
}

impl MinecraftServer {
    /// The launch of the jar `name_of_jar` from `path_to_jar_dir` with
    /// `java_command java_jar_arg name_of_jar additional_args...`.
    pub fn new(
        java_command: String,
        java_jar_arg: String,
        path_to_jar_dir: String,
        name_of_jar: String,
        additional_args: Vec<String>,
    ) -> (s: Self)
        ensures
            s.java_command@ == java_command@,
            s.path_to_jar_dir@ == path_to_jar_dir@,
            texts(s.args@) == seq![java_jar_arg@, name_of_jar@] + texts(additional_args@),
    {
        let mut args: Vec<String> = Vec::new();
        args.push(java_jar_arg);
        args.push(name_of_jar);
        let mut i: usize = 0;
        while i < additional_args.len()
            invariant
                i <= additional_args.len(),
                texts(args@) == seq![java_jar_arg@, name_of_jar@] + texts(additional_args@.take(i as int)),
            decreases additional_args.len() - i,
        {
            let a = additional_args[i].clone();
            let ghost before = args@;
            args.push(a);
            assert(args@ == before.push(a));
            assert(texts(args@) =~= texts(before).push(a@));
            assert(additional_args@.take(i + 1) =~= additional_args@.take(i as int).push(additional_args@[i as int]));
            assert(texts(additional_args@.take(i + 1)) =~= texts(additional_args@.take(i as int)).push(a@));
            i = i + 1;
            assert(texts(args@) =~= seq![java_jar_arg@, name_of_jar@] + texts(additional_args@.take(i as int)));
        }
        assert(additional_args@.take(i as int) =~= additional_args@);
        MinecraftServer { java_command, path_to_jar_dir, args }
    }

    /// The launch of a known server: `java -jar` its jar, from its directory.
    pub fn new_default(config: DefaultServerConfig) -> (s: Self)
        ensures
            s.java_command@ == "java"@,
            s.path_to_jar_dir@ == jar_dir(config),
            texts(s.args@) == seq!["-jar"@, jar_name(config)] + extra_args(config),
    {
        let (dir, jar) = match config {
            DefaultServerConfig::Grapher => (
                "/run/media/mark/Samsung_T5/Code/Java_IntelliJ/Java/Grapher/out/artifacts/Grapher_jar/",
                "Grapher.jar",
            ),
            DefaultServerConfig::Mc1_19_0 => ("/media/mark/mcsrv/minecraft_server/1_19_0", "server.jar"),
            DefaultServerConfig::Mc1_19_2 => ("/home/mark/Downloads/", "minecraft-server-1.19.2.jar"),
        };
        let mut extra: Vec<String> = Vec::new();
        match config {
            DefaultServerConfig::Grapher => {},
            _ => {
                extra.push(String::from_str("--nogui"));
            },
        }
        assert(texts(extra@) =~= extra_args(config));
        Self::new(
            String::from_str("java"),
            String::from_str("-jar"),
            String::from_str(dir),
            String::from_str(jar),
            extra,
        )
    }

    /// The server that `name` names, or the reply that lists the known ones.
    pub fn default_server_config_from_str(name: &str) -> (r: Result<DefaultServerConfig, String>)
        ensures
            match r {
                Ok(config) => config_named(name@) == Some(config),
                Err(message) => config_named(name@) is None && message@ == UNKNOWN_SERVER_TYPE@,
            },
    {
        if same_text(name, "Grapher") {
            Ok(DefaultServerConfig::Grapher)
        } else if same_text(name, "1.19") {
            Ok(DefaultServerConfig::Mc1_19_0)
        } else if same_text(name, "1.19.2") {
            Ok(DefaultServerConfig::Mc1_19_2)
        } else {
            Err(String::from_str(UNKNOWN_SERVER_TYPE))
        }
    }
}

/// The line written to the server's standard input for the console command `text`.
pub fn stdin_line(text: &str) -> (line: String)
    ensures
        line@ == text@.push('\n'),
{
    let mut line = String::from_str(text);
    line.push('\n');
    line
}

/// Where each known server is launched from and what it runs: every one is
/// started as `java -jar <jar>` from the directory that holds its jar, and
/// no two of them share a directory or a jar.
pub proof fn lemma_launch_table()
    ensures
        jar_dir(DefaultServerConfig::Grapher) == "/run/media/mark/Samsung_T5/Code/Java_IntelliJ/Java/Grapher/out/artifacts/Grapher_jar/"@,
        jar_name(DefaultServerConfig::Grapher) == "Grapher.jar"@,
        extra_args(DefaultServerConfig::Grapher) == Seq::<Seq<char>>::empty(),
        jar_dir(DefaultServerConfig::Mc1_19_0) == "/media/mark/mcsrv/minecraft_server/1_19_0"@,
        jar_name(DefaultServerConfig::Mc1_19_0) == "server.jar"@,
        extra_args(DefaultServerConfig::Mc1_19_0) == seq!["--nogui"@],
        jar_dir(DefaultServerConfig::Mc1_19_2) == "/home/mark/Downloads/"@,
        jar_name(DefaultServerConfig::Mc1_19_2) == "minecraft-server-1.19.2.jar"@,
        extra_args(DefaultServerConfig::Mc1_19_2) == seq!["--nogui"@],
        forall|a: DefaultServerConfig, b: DefaultServerConfig| a != b ==> jar_dir(a) != jar_dir(b) && jar_name(a) != jar_name(b),
{
    reveal_strlit("/run/media/mark/Samsung_T5/Code/Java_IntelliJ/Java/Grapher/out/artifacts/Grapher_jar/");
    reveal_strlit("/media/mark/mcsrv/minecraft_server/1_19_0");
    reveal_strlit("/home/mark/Downloads/");
    reveal_strlit("Grapher.jar");
    reveal_strlit("server.jar");
    reveal_strlit("minecraft-server-1.19.2.jar");
    let g = "/run/media/mark/Samsung_T5/Code/Java_IntelliJ/Java/Grapher/out/artifacts/Grapher_jar/"@;
    let m0 = "/media/mark/mcsrv/minecraft_server/1_19_0"@;
    let m2 = "/home/mark/Downloads/"@;
    assert(g[1] == 'r' && m0[1] == 'm' && m2[1] == 'h');
    assert(g != m0 && g != m2 && m0 != m2);
    let jg = "Grapher.jar"@;
    let j0 = "server.jar"@;
    let j2 = "minecraft-server-1.19.2.jar"@;
    assert(jg[0] == 'G' && j0[0] == 's' && j2[0] == 'm');
    assert(jg != j0 && jg != j2 && j0 != j2);
}

/// The chat names of the known servers: exactly `Grapher`, `1.19` and
/// `1.19.2`, each naming its own server, and nothing else names one.
pub proof fn lemma_config_names(name: Seq<char>)
    ensures
        config_named("Grapher"@) == Some(DefaultServerConfig::Grapher),
        config_named("1.19"@) == Some(DefaultServerConfig::Mc1_19_0),
        config_named("1.19.2"@) == Some(DefaultServerConfig::Mc1_19_2),
        name != "Grapher"@ && name != "1.19"@ && name != "1.19.2"@ ==> config_named(name) is None,
{
    reveal_strlit("Grapher");
    reveal_strlit("1.19");
    reveal_strlit("1.19.2");
    assert("Grapher"@[0] == 'G' && "1.19"@[0] == '1');
    assert("1.19"@.len() == 4 && "1.19.2"@.len() == 6);
}

} // verus!
