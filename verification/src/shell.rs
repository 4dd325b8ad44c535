//! What the host runs in the user's shell: the command line that loads the
//! shell's settings first, the scripts it hands to a terminal, and what the
//! outcome of a command means.

use crate::text::{has_substring, is_substring, signed_decimal, signed_text};
use vstd::prelude::*;
use vstd::string::{StrSliceExecFns, StringExecFns};

verus! {

/// What a command line for zsh starts with.
pub open spec fn zsh_setup() -> Seq<char> {
    "source ~/.zshrc 2>/dev/null; source ~/.zprofile 2>/dev/null; "@
}

/// What a command line for bash starts with.
pub open spec fn bash_setup() -> Seq<char> {
    "source ~/.bash_profile 2>/dev/null; source ~/.bashrc 2>/dev/null; "@
}

/// The command line for a shell: for zsh and for bash the command after the
/// loading of the shell's settings, for any other shell the command alone.
pub open spec fn wrapped(shell: Seq<char>, command: Seq<char>) -> Seq<char> {
    if is_substring("zsh"@, shell) {
        zsh_setup() + command
    } else if is_substring("bash"@, shell) {
        bash_setup() + command
    } else {
        command
    }
}

/// Builds the command line that runs `command` in the shell at the path
/// `shell`.
pub fn wrap_command(shell: &str, command: &str) -> (line: String)
    ensures
        line@ == wrapped(shell@, command@),
{
    if has_substring(shell, "zsh") {
        let mut line = String::from_str(
            "source ~/.zshrc 2>/dev/null; source ~/.zprofile 2>/dev/null; ",
        );
        line.append(command);
        line
    } else if has_substring(shell, "bash") {
        let mut line = String::from_str(
            "source ~/.bash_profile 2>/dev/null; source ~/.bashrc 2>/dev/null; ",
        );
        line.append(command);
        line
    } else {
        String::from_str(command)
    }
}

/// An exit code as the failure message shows it.
pub open spec fn exit_code_text(exit_code: Option<i32>) -> Seq<char> {
    match exit_code {
        Some(code) => "Some("@ + signed_decimal(code as int) + ")"@,
        None => "None"@,
    }
}

/// What a finished command hands back: its output when it succeeded; when
/// it failed, what it wrote to the error stream, else what it wrote to the
/// output stream, else a message with its exit code.
pub open spec fn outcome(
    succeeded: bool,
    exit_code: Option<i32>,
    stdout: Seq<char>,
    stderr: Seq<char>,
) -> Result<Seq<char>, Seq<char>> {
    if succeeded {
        Ok(stdout)
    } else if stderr.len() > 0 {
        Err(stderr)
    } else if stdout.len() > 0 {
        Err(stdout)
    } else {
        Err("Command failed with exit code: "@ + exit_code_text(exit_code))
    }
}

/// Turns the status and the streams of a finished command into the answer
/// for the caller.
pub fn command_outcome(succeeded: bool, exit_code: Option<i32>, stdout: String, stderr: String) -> (out:
    Result<String, String>)
    ensures
        match out {
            Ok(text) => outcome(succeeded, exit_code, stdout@, stderr@) == Ok::<
                Seq<char>,
                Seq<char>,
            >(text@),
            Err(text) => outcome(succeeded, exit_code, stdout@, stderr@) == Err::<
                Seq<char>,
                Seq<char>,
            >(text@),
        },
{
    if succeeded {
        return Ok(stdout);
    }
    if !stderr.as_str().is_empty() {
        return Err(stderr);
    }
    if !stdout.as_str().is_empty() {
        return Err(stdout);
    }
    let mut message = String::from_str("Command failed with exit code: ");
    match exit_code {
        Some(code) => {
            message.append("Some(");
            message.append(signed_text(code).as_str());
            message.append(")");
            assert(message@ =~= "Command failed with exit code: "@ + exit_code_text(exit_code));
        },
        None => {
            message.append("None");
        },
    }
    Err(message)
}

/// The script that a terminal runs: it changes to the home directory and
/// runs the command; with `remove` it ends by removing the file at that
/// path, which is its own.
pub open spec fn script_text(home: Seq<char>, command: Seq<char>, remove: Option<Seq<char>>) -> Seq<
    char,
> {
    let body = "#!/bin/bash\ncd '"@ + home + "'\n"@ + command + "\n"@;
    match remove {
        Some(path) => body + "rm '"@ + path + "'\n"@,
        None => body,
    }
}

/// Writes the script that a terminal runs.
pub fn terminal_script(home: &str, command: &str, remove: Option<&str>) -> (text: String)
    ensures
        text@ == script_text(
            home@,
            command@,
            match remove {
                Some(path) => Some(path@),
                None => None,
            },
        ),
{
    let mut text = String::from_str("#!/bin/bash\ncd '");
    text.append(home);
    text.append("'\n");
    text.append(command);
    text.append("\n");
    match remove {
        Some(path) => {
            text.append("rm '");
            text.append(path);
            text.append("'\n");
        },
        None => {},
    }
    text
}

/// The command that a new terminal window runs so that it stays open.
pub fn keep_open_command(command: &str) -> (line: String)
    ensures
        line@ == command@ + "; exec bash"@,
{
    let mut line = String::from_str(command);
    line.append("; exec bash");
    line
}

/// The same for a terminal that takes one command line for bash.
pub fn keep_open_bash_command(command: &str) -> (line: String)
    ensures
        line@ == "bash -c '"@ + command@ + "; exec bash'"@,
{
    let mut line = String::from_str("bash -c '");
    line.append(command);
    line.append("; exec bash'");
    line
}

/// How many characters stand between `from` and the next line feed, or the
/// end of the text.
pub open spec fn line_length(content: Seq<char>, from: int) -> nat
    decreases content.len() - from,
{
    if from < 0 || from >= content.len() || content[from] == '\n' {
        0
    } else {
        1 + line_length(content, from + 1)
    }
}

/// Where the line that starts at `from` ends: at the next line feed, or at
/// the end of the text.
pub open spec fn line_end(content: Seq<char>, from: int) -> int {
    from + line_length(content, from)
}

/// The line that starts at `from`, without its line ending: the line feed,
/// and a carriage return just before it.
pub open spec fn line_at(content: Seq<char>, from: int) -> Seq<char> {
    let end = line_end(content, from);
    if from < end < content.len() && content[end - 1] == '\r' {
        content.subrange(from, end - 1)
    } else {
        content.subrange(from, end)
    }
}

/// What follows the last colon of a line; the whole line when it has none.
pub open spec fn last_field(line: Seq<char>) -> Seq<char>
    decreases line.len(),
{
    if line.len() == 0 || line.last() == ':' {
        Seq::<char>::empty()
    } else {
        last_field(line.drop_last()).push(line.last())
    }
}

/// The shell that the user table names for a home directory, looking at the
/// lines from position `from` on: the last field of the first line in which
/// the home directory occurs.
pub open spec fn shell_in_table(content: Seq<char>, home: Seq<char>, from: int) -> Option<Seq<char>>
    decreases content.len() - from,
{
    if from < 0 || from >= content.len() {
        None
    } else if is_substring(home, line_at(content, from)) {
        Some(last_field(line_at(content, from)))
    } else if from + line_length(content, from) >= content.len() {
        None
    } else {
        shell_in_table(content, home, from + line_length(content, from) + 1)
    }
}

/// A line that starts inside the text ends inside it, or at its end.
proof fn lemma_line_ends_in_text(content: Seq<char>, from: int)
    requires
        0 <= from <= content.len(),
    ensures
        line_end(content, from) <= content.len(),
    decreases content.len() - from,
{
    if from < content.len() && content[from] != '\n' {
        lemma_line_ends_in_text(content, from + 1);
    }
}

/// Moving the start of a line's tail one place to the left, over a
/// character that is no colon, keeps the last field.
proof fn lemma_last_field_tail(line: Seq<char>, start: int)
    requires
        0 < start <= line.len(),
        line[start - 1] != ':',
    ensures
        last_field(line.subrange(0, start)) + line.subrange(start, line.len() as int)
            == last_field(line.subrange(0, start - 1)) + line.subrange(
            start - 1,
            line.len() as int,
        ),
{
    let head = line.subrange(0, start);
    assert(head.drop_last() =~= line.subrange(0, start - 1));
    assert(head.last() == line[start - 1]);
    assert(last_field(head.drop_last()).push(head.last()) + line.subrange(
        start,
        line.len() as int,
    ) =~= last_field(head.drop_last()) + line.subrange(start - 1, line.len() as int));
}

/// Finds the user's shell in the text of the user table: the last field,
/// after the last colon, of the first line that holds the home directory.
pub fn shell_from_passwd(content: &str, home: &str) -> (shell: Option<String>)
    ensures
        match shell {
            Some(text) => shell_in_table(content@, home@, 0) == Some(text@),
            None => shell_in_table(content@, home@, 0).is_none(),
        },
{
    let n = content.unicode_len();
    let mut from: usize = 0;
    while from < n
        invariant
            n == content@.len(),
            from <= n,
            shell_in_table(content@, home@, 0) == shell_in_table(content@, home@, from as int),
        decreases n - from,
    {
        let mut end: usize = from;
        proof {
            lemma_line_ends_in_text(content@, from as int);
        }
        while end < n && content.get_char(end) != '\n'
            invariant
                n == content@.len(),
                from <= end <= n,
                line_end(content@, from as int) == line_end(content@, end as int),
                line_end(content@, end as int) <= n,
            decreases n - end,
        {
            end += 1;
        }
        let stop = if from < end && end < n && content.get_char(end - 1) == '\r' {
            end - 1
        } else {
            end
        };
        let line = content.substring_char(from, stop);
        assert(line@ == line_at(content@, from as int));
        if has_substring(line, home) {
            let length = line.unicode_len();
            let mut start: usize = length;
            proof {
                assert(line@.subrange(0, length as int) =~= line@);
                assert(line@.subrange(length as int, length as int) =~= Seq::<char>::empty());
            }
            while start > 0 && line.get_char(start - 1) != ':'
                invariant
                    length == line@.len(),
                    start <= length,
                    last_field(line@) == last_field(line@.subrange(0, start as int)) + line@.subrange(
                        start as int,
                        length as int,
                    ),
                decreases start,
            {
                proof {
                    lemma_last_field_tail(line@, start as int);
                }
                start -= 1;
            }
            proof {
                let head = line@.subrange(0, start as int);
                if start > 0 {
                    assert(head.last() == line@[start - 1]);
                }
                assert(last_field(head) =~= Seq::<char>::empty());
                assert(last_field(line@) =~= line@.subrange(start as int, length as int));
            }
            return Some(String::from_str(line.substring_char(start, length)));
        }
        if end == n {
            return None;
        }
        from = end + 1;
    }
    None
}

/// The shell to run commands in: the one that the environment names; else
/// the one that the user table names for the home directory, when the table
/// could be read; else zsh.
pub fn login_shell(from_environment: Option<String>, user_table: Option<&str>, home: &str) -> (shell:
    String)
    ensures
        shell@ == match from_environment {
            Some(named) => named@,
            None => match user_table {
                Some(content) => match shell_in_table(content@, home@, 0) {
                    Some(found) => found,
                    None => "/bin/zsh"@,
                },
                None => "/bin/zsh"@,
            },
        },
{
    match from_environment {
        Some(named) => named,
        None => {
            let found = match user_table {
                Some(content) => shell_from_passwd(content, home),
                None => None,
            };
            match found {
                Some(shell) => shell,
                None => String::from_str("/bin/zsh"),
            }
        },
    }
}

/// The home directory: the one that the environment names; else the one
/// that the system knows; else the directory of all users.
pub fn home_directory(from_environment: Option<String>, from_system: Option<String>) -> (home:
    String)
    ensures
        home@ == match from_environment {
            Some(named) => named@,
            None => match from_system {
                Some(known) => known@,
                None => "/Users"@,
            },
        },
{
    match from_environment {
        Some(named) => named,
        None => match from_system {
            Some(known) => known,
            None => String::from_str("/Users"),
        },
    }
}

} // verus!
