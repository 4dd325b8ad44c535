use shell_script_manager::model::Relation;
use shell_script_manager::order::{any_names_script, cascade_orphans};
use shell_script_manager::shell::{
    command_outcome, home_directory, keep_open_bash_command, keep_open_command, login_shell,
    shell_from_passwd, terminal_script, wrap_command,
};
use shell_script_manager::text::{decimal_text, signed_text};

fn link(folder_id: i32, script_id: i32) -> Relation {
    Relation {
        folder_id,
        script_id,
    }
}

#[test]
fn orphans_are_the_scripts_without_another_folder() {
    let deleted = vec![link(1, 10), link(1, 11), link(1, 12)];
    let remaining = vec![link(2, 11), link(3, 13)];
    assert_eq!(cascade_orphans(&deleted, &remaining), vec![10, 12]);
    assert_eq!(cascade_orphans(&deleted, &vec![]), vec![10, 11, 12]);
    assert_eq!(cascade_orphans(&vec![], &remaining), Vec::<i32>::new());
    assert_eq!(
        cascade_orphans(&vec![link(1, 10), link(1, 10)], &remaining),
        vec![10, 10]
    );
    assert!(any_names_script(&remaining, 13));
    assert!(!any_names_script(&remaining, 2));
}

#[test]
fn command_lines_load_the_shell_settings() {
    assert_eq!(
        wrap_command("/bin/zsh", "ls -la"),
        "source ~/.zshrc 2>/dev/null; source ~/.zprofile 2>/dev/null; ls -la"
    );
    assert_eq!(
        wrap_command("/usr/local/bin/bash", "make"),
        "source ~/.bash_profile 2>/dev/null; source ~/.bashrc 2>/dev/null; make"
    );
    assert_eq!(wrap_command("/bin/fish", "make"), "make");
    assert_eq!(wrap_command("", ""), "");
    assert_eq!(
        wrap_command("/opt/zsh-and-bash", "x"),
        "source ~/.zshrc 2>/dev/null; source ~/.zprofile 2>/dev/null; x"
    );
    assert_eq!(wrap_command("/bin/zs", "x"), "x");
}

#[test]
fn command_outcomes() {
    let s = |t: &str| t.to_string();
    assert_eq!(
        command_outcome(true, Some(0), s("out"), s("warn")),
        Ok(s("out"))
    );
    assert_eq!(command_outcome(true, Some(0), s(""), s("")), Ok(s("")));
    assert_eq!(
        command_outcome(false, Some(2), s("out"), s("bad")),
        Err(s("bad"))
    );
    assert_eq!(
        command_outcome(false, Some(2), s("out"), s("")),
        Err(s("out"))
    );
    assert_eq!(
        command_outcome(false, Some(2), s(""), s("")),
        Err(s("Command failed with exit code: Some(2)"))
    );
    assert_eq!(
        command_outcome(false, Some(-15), s(""), s("")),
        Err(s("Command failed with exit code: Some(-15)"))
    );
    assert_eq!(
        command_outcome(false, None, s(""), s("")),
        Err(s("Command failed with exit code: None"))
    );
    assert_eq!(
        command_outcome(false, Some(127), s(""), s("")),
        Err(format!("Command failed with exit code: {:?}", Some(127)))
    );
}

#[test]
fn numbers_as_text() {
    assert_eq!(decimal_text(0), "0");
    assert_eq!(decimal_text(4294967295), "4294967295");
    assert_eq!(signed_text(0), "0");
    assert_eq!(signed_text(-1), "-1");
    assert_eq!(signed_text(i32::MAX), "2147483647");
    assert_eq!(signed_text(i32::MIN), "-2147483648");
    for n in [5, -5, 10, -10, 99, 100, -12345, 1000000] {
        assert_eq!(signed_text(n), n.to_string());
    }
}

#[test]
fn terminal_scripts() {
    assert_eq!(
        terminal_script("/home/me", "echo hi", None),
        "#!/bin/bash\ncd '/home/me'\necho hi\n"
    );
    assert_eq!(
        terminal_script("/home/me", "echo hi", Some("/tmp/s.sh")),
        "#!/bin/bash\ncd '/home/me'\necho hi\nrm '/tmp/s.sh'\n"
    );
    assert_eq!(keep_open_command("top"), "top; exec bash");
    assert_eq!(keep_open_bash_command("top"), "bash -c 'top; exec bash'");
}

fn by_lines(content: &str, home: &str) -> Option<String> {
    content.lines().find_map(|line| {
        if line.contains(home) {
            line.split(':').last().map(|s| s.to_string())
        } else {
            None
        }
    })
}

#[test]
fn shell_is_read_from_the_user_table() {
    let table = "root:x:0:0:root:/root:/bin/bash\nme:x:1000:1000:Me:/home/me:/bin/zsh\nyou:x:1001:1001::/home/you:/usr/bin/fish\n";
    assert_eq!(
        shell_from_passwd(table, "/home/me"),
        Some("/bin/zsh".to_string())
    );
    assert_eq!(
        shell_from_passwd(table, "/home/you"),
        Some("/usr/bin/fish".to_string())
    );
    assert_eq!(
        shell_from_passwd(table, "/root"),
        Some("/bin/bash".to_string())
    );
    assert_eq!(shell_from_passwd(table, "/home/them"), None);
    assert_eq!(shell_from_passwd("", "/home/me"), None);
    assert_eq!(shell_from_passwd("", ""), None);
    assert_eq!(
        shell_from_passwd(table, ""),
        Some("/bin/bash".to_string())
    );
}

#[test]
fn user_table_lines_are_read_as_lines() {
    let tables = [
        "a:/home/me:/bin/sh",
        "a:/home/me:/bin/sh\r\nb:/home/you:/bin/ksh\r\n",
        "a:/home/me:/bin/sh\r",
        "\n\n/home/me\n",
        "x\n/home/me:\n",
        "no colon /home/me here",
        "first\nsecond:/home/me:last:field\nthird:/home/me:other",
        "a:/home/me:/bin/sh\rtail\nb",
        ":\n",
        "\r\n",
        "caf\u{e9}:/home/m\u{e9}:/bin/z\u{e9}\n",
    ];
    let homes = ["/home/me", "/home/you", "", ":", "me", "/home/m\u{e9}", "\r", "zzz"];
    for table in tables {
        for home in homes {
            assert_eq!(
                shell_from_passwd(table, home),
                by_lines(table, home),
                "table {:?}, home {:?}",
                table,
                home
            );
        }
    }
}

#[test]
fn shell_and_home_fall_back() {
    let table = "me:x:1:1::/home/me:/bin/dash\n";
    assert_eq!(
        login_shell(Some("/bin/fish".to_string()), Some(table), "/home/me"),
        "/bin/fish"
    );
    assert_eq!(login_shell(None, Some(table), "/home/me"), "/bin/dash");
    assert_eq!(login_shell(None, Some(table), "/home/you"), "/bin/zsh");
    assert_eq!(login_shell(None, None, "/home/me"), "/bin/zsh");
    assert_eq!(
        home_directory(Some("/home/a".to_string()), Some("/home/b".to_string())),
        "/home/a"
    );
    assert_eq!(home_directory(None, Some("/home/b".to_string())), "/home/b");
    assert_eq!(home_directory(None, None), "/Users");
}
