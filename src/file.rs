use crate::config::ExecutionOrder;
use crate::error::AppError;
use vstd::prelude::*;

verus! {

/// One command to run on one file, with the group it was declared in.
#[derive(Debug, Clone)]
pub struct FileCommand {
    pub filename: String,
    pub command: String,
    pub group_name: String,
    pub timeout: Option<String>,
    pub execution_order: ExecutionOrder,
}

/// The characters that `char::is_whitespace` accepts: those with the
/// Unicode White_Space property.
pub open spec fn is_space(c: char) -> bool {
    ||| '\u{9}' <= c && c <= '\u{d}'
    ||| c == ' '
    ||| c == '\u{85}'
    ||| c == '\u{a0}'
    ||| c == '\u{1680}'
    ||| '\u{2000}' <= c && c <= '\u{200a}'
    ||| c == '\u{2028}'
    ||| c == '\u{2029}'
    ||| c == '\u{202f}'
    ||| c == '\u{205f}'
    ||| c == '\u{3000}'
}

/// First index at or after `j` that is not whitespace, or the length.
pub open spec fn skip_spaces(s: Seq<char>, j: int) -> int
    decreases s.len() - j,
{
    if j < 0 || j >= s.len() {
        s.len() as int
    } else if is_space(s[j]) {
        skip_spaces(s, j + 1)
    } else {
        j
    }
}

/// First index at or after `j` that is whitespace, or the length.
pub open spec fn word_end(s: Seq<char>, j: int) -> int
    decreases s.len() - j,
{
    if j < 0 || j >= s.len() {
        s.len() as int
    } else if is_space(s[j]) {
        j
    } else {
        word_end(s, j + 1)
    }
}

pub open spec fn starts_with_sh_c(s: Seq<char>) -> bool {
    &&& s.len() >= 5
    &&& s[0] == 's'
    &&& s[1] == 'h'
    &&& s[2] == ' '
    &&& s[3] == '-'
    &&& s[4] == 'c'
}

/// The program a command line runs: `sh` for one that starts with `sh -c`;
/// else its first whitespace-separated word; else, when it has no word, the
/// line itself.
pub open spec fn program_of(c: Seq<char>) -> Seq<char> {
    if starts_with_sh_c(c) {
        seq!['s', 'h']
    } else if skip_spaces(c, 0) == c.len() {
        c
    } else {
        c.subrange(skip_spaces(c, 0), word_end(c, skip_spaces(c, 0)))
    }
}

pub fn is_space_char(c: char) -> (r: bool)
    ensures
        r == is_space(c),
{
    ('\u{9}' <= c && c <= '\u{d}') || c == ' ' || c == '\u{85}' || c == '\u{a0}' || c == '\u{1680}'
        || ('\u{2000}' <= c && c <= '\u{200a}') || c == '\u{2028}' || c == '\u{2029}' || c
        == '\u{202f}' || c == '\u{205f}' || c == '\u{3000}'
}

/// The program that a command line runs, whose presence on the search path
/// decides whether the command can run.
pub fn program_name(command: &str) -> (r: String)
    ensures
        r@ == program_of(command@),
{
    let n = command.unicode_len();
    if n >= 5 {
        if command.get_char(0) == 's' && command.get_char(1) == 'h' && command.get_char(2) == ' '
            && command.get_char(3) == '-' && command.get_char(4) == 'c' {
            proof {
                reveal_strlit("sh");
            }
            return String::from_str("sh");
        }
    }
    let mut i: usize = 0;
    while i < n && is_space_char(command.get_char(i))
        invariant
            n == command@.len(),
            i <= n,
            skip_spaces(command@, i as int) == skip_spaces(command@, 0),
        decreases n - i,
    {
        i = i + 1;
    }
    if i == n {
        return String::from_str(command);
    }
    let mut j: usize = i;
    while j < n && !is_space_char(command.get_char(j))
        invariant
            n == command@.len(),
            i <= j <= n,
            word_end(command@, j as int) == word_end(command@, i as int),
        decreases n - j,
    {
        j = j + 1;
    }
    String::from_str(command.substring_char(i, j))
}

/// Relies on which::which: looks the program up on the search path. What
/// it finds depends on the environment and the disk, so nothing is stated.
#[verifier::external_body]
fn on_search_path(program: &str) -> (r: bool) {
    which::which(program).is_ok()
}

impl FileCommand {
    /// Whether the command's program is found on the search path.
    pub fn command_exists(&self) -> bool {
        let program = program_name(self.command.as_str());
        on_search_path(program.as_str())
    }
}

/// The staged files, as read from the index; an empty index means there is
/// nothing to check, which is an error of its own.
pub fn staged_files(files: Vec<String>) -> (r: Result<Vec<String>, AppError>)
    ensures
        files@.len() == 0 ==> (r matches Err(AppError::NoStagedFiles)),
        files@.len() > 0 ==> (r matches Ok(v) && v@ == files@),
{
    if files.len() == 0 {
        Err(AppError::NoStagedFiles)
    } else {
        Ok(files)
    }
}

} // verus!
