//! The names that the pipe goes by.
//!
//! The pipe is named after the command-line tool of the agent that it keeps
//! running: the program for the tool `t` is `t-pipe`.

use crate::text;
use vstd::prelude::*;
use vstd::string::*;

verus! {

/// The name of the pipe for a tool.
pub open spec fn program(tool: Seq<char>) -> Seq<char> {
    tool + "-pipe"@
}

/// The name of the pipe for a tool.
pub fn program_name(tool: &str) -> (r: String)
    ensures
        r@ == program(tool@),
{
    let mut out: String = tool.to_owned();
    out.append("-pipe");
    out
}

/// The tool that a pipe is for, by the name of the pipe.
pub fn tool_of_program(name: &str) -> (r: Option<String>)
    ensures
        match r {
            Some(tool) => name@ == program(tool@) && tool@.len() > 0,
            None => forall|tool: Seq<char>| tool.len() > 0 ==> name@ != #[trigger] program(tool),
        },
{
    proof {
        reveal_strlit("-pipe");
    }
    let n: usize = name.unicode_len();
    if n > 5 {
        if text::same_text(name.substring_char(n - 5, n), "-pipe") {
            let tool: String = name.substring_char(0, n - 5).to_owned();
            assert(name@ =~= program(tool@));
            return Some(tool);
        }
    }
    assert forall|tool: Seq<char>| tool.len() > 0 implies name@ != #[trigger] program(tool) by {
        if name@ == program(tool) {
            assert(name@.subrange(n - 5, n as int) =~= "-pipe"@);
        }
    }
    None
}

/// The name under which the package is built, before the program is installed
/// under the name of its tool.
pub open spec fn package() -> Seq<char> {
    "acp-pipe"@
}

/// The tool that a program is for: the one that is set, if any is, and
/// otherwise the one that the program is named after. The package's own name
/// stands for no tool.
pub fn choose_tool(set: Option<&str>, name: &str) -> (r: Option<String>)
    ensures
        match set {
            Some(t) if t@.len() > 0 => r matches Some(tool) && tool@ == t@,
            _ => match r {
                Some(tool) => name@ != package() && name@ == program(tool@) && tool@.len() > 0,
                None => name@ == package() || forall|tool: Seq<char>|
                    tool.len() > 0 ==> name@ != #[trigger] program(tool),
            },
        },
{
    if let Some(t) = set {
        if t.unicode_len() > 0 {
            return Some(t.to_owned());
        }
    }
    if text::same_text(name, "acp-pipe") {
        None
    } else {
        tool_of_program(name)
    }
}

} // verus!
