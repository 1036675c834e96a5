//! Recipes: how each kind of agent is brought up.
//!
//! A recipe names the command, its arguments and environment, and how many
//! agents to keep warm. This is the only place that knows one agent from
//! another.

use crate::text;
use crate::text::{push_text, same_text};
use vstd::prelude::*;
use vstd::string::*;

verus! {

/// How an agent is presented on the data socket.
#[derive(Debug, Clone, Copy, PartialEq, Eq, Structural)]
pub enum RecipeKind {
    /// A process that speaks raw ACP on its standard streams.
    AcpStdio,
    /// A live channels session behind a bridge.
    ClaudeChannels,
}

/// A [`Recipe`] as mathematical values.
pub struct RecipeModel {
    pub name: Seq<char>,
    pub kind: RecipeKind,
    pub command: Seq<char>,
    pub args: Seq<Seq<char>>,
    pub env: Seq<(Seq<char>, Option<Seq<char>>)>,
    pub pool_size: usize,
}

/// All that is needed to bring one kind of agent up.
#[derive(Debug, Clone)]
pub struct Recipe {
    /// The name by which the kind is asked for.
    pub name: String,
    pub kind: RecipeKind,
    /// The executable.
    pub command: String,
    /// Its arguments.
    pub args: Vec<String>,
    /// Changes to its environment; no value means that the key is unset.
    pub env: Vec<(String, Option<String>)>,
    /// How many agents to keep warm; 0 means on demand only.
    pub pool_size: usize,
}

impl View for Recipe {
    type V = RecipeModel;

    open spec fn view(&self) -> RecipeModel {
        RecipeModel {
            name: self.name@,
            kind: self.kind,
            command: self.command@,
            args: text::texts(self.args@),
            env: Seq::new(
                self.env@.len(),
                |i: int| (self.env@[i].0@, text::opt_text(self.env@[i].1)),
            ),
            pool_size: self.pool_size,
        }
    }
}

/// A recipe for an agent that speaks ACP on its standard streams, in the
/// environment as it is.
pub open spec fn stdio_recipe(
    name: Seq<char>,
    command: Seq<char>,
    arg: Seq<char>,
) -> RecipeModel {
    RecipeModel {
        name,
        kind: RecipeKind::AcpStdio,
        command,
        args: seq![arg],
        env: Seq::empty(),
        pool_size: 1,
    }
}

/// The name of the channels recipe of a tool.
pub open spec fn channels_name(tool: Seq<char>) -> Seq<char> {
    tool + "-channels"@
}

/// The recipe for the channels bridge. The key is unset, so that the agent
/// rides on the subscription.
pub open spec fn channels_recipe(tool: Seq<char>, bridge: Seq<char>) -> RecipeModel {
    RecipeModel {
        name: channels_name(tool),
        kind: RecipeKind::ClaudeChannels,
        command: "node"@,
        args: seq![bridge],
        env: seq![("ANTHROPIC_API_KEY"@, None::<Seq<char>>)],
        pool_size: 1,
    }
}

/// The text of an override, or what stands in for it.
pub open spec fn overridden(value: Option<Seq<char>>, other: Seq<char>) -> Seq<char> {
    match value {
        Some(v) => v,
        None => other,
    }
}

/// The recipe of a name, if the name is known; the channels recipe is that of
/// `tool`, and is known by the tool's own name too. `bridge` and `mock` override
/// the scripts of the bridge and of the mock agent.
pub open spec fn builtin_recipe(
    tool: Seq<char>,
    name: Seq<char>,
    bridge: Option<Seq<char>>,
    mock: Option<Seq<char>>,
) -> Option<RecipeModel> {
    if name == "gemini"@ || name == "acp-stdio"@ {
        Some(stdio_recipe("gemini"@, "gemini"@, "--acp"@))
    } else if name == "codex"@ {
        Some(stdio_recipe("codex"@, "codex"@, "acp"@))
    } else if name == channels_name(tool) || name == tool {
        Some(
            channels_recipe(
                tool,
                overridden(bridge, "scripts/"@ + channels_name(tool) + "-bridge.mjs"@),
            ),
        )
    } else if name == "mock"@ {
        Some(
            stdio_recipe(
                "mock"@,
                "node"@,
                overridden(mock, "tests/support/mock-acp-agent.mjs"@),
            ),
        )
    } else {
        None
    }
}

fn stdio(name: &str, command: &str, arg: String) -> (r: Recipe)
    ensures
        r@ == stdio_recipe(name@, command@, arg@),
{
    let mut args: Vec<String> = Vec::new();
    args.push(arg);
    let r = Recipe {
        name: name.to_owned(),
        kind: RecipeKind::AcpStdio,
        command: command.to_owned(),
        args,
        env: Vec::new(),
        pool_size: 1,
    };
    assert(r@.args =~= seq![arg@]);
    assert(r@.env =~= Seq::empty());
    r
}

fn channels_text(tool: &str) -> (r: String)
    ensures
        r@ == channels_name(tool@),
{
    let mut out: String = tool.to_owned();
    out.append("-channels");
    out
}

fn override_or(value: Option<String>, other: &str) -> (r: String)
    ensures
        r@ == overridden(text::opt_text(value), other@),
{
    match value {
        Some(v) => v,
        None => other.to_owned(),
    }
}

impl Recipe {
    /// The recipe of a name, if the name is known; the channels recipe is that
    /// of `tool`. `channels_bridge` and
    /// `mock_agent` are the values of `CLAUDE_PIPE_CHANNELS_BRIDGE` and
    /// `CLAUDE_PIPE_MOCK_AGENT`, where they are set.
    pub fn builtin(
        tool: &str,
        name: &str,
        channels_bridge: Option<String>,
        mock_agent: Option<String>,
    ) -> (r: Option<Recipe>)
        ensures
            (match r {
                Some(x) => Some(x@),
                None => None,
            }) == builtin_recipe(
                tool@,
                name@,
                text::opt_text(channels_bridge),
                text::opt_text(mock_agent),
            ),
    {
        let channels: String = channels_text(tool);
        if same_text(name, "gemini") || same_text(name, "acp-stdio") {
            Some(stdio("gemini", "gemini", "--acp".to_owned()))
        } else if same_text(name, "codex") {
            Some(stdio("codex", "codex", "acp".to_owned()))
        } else if same_text(name, channels.as_str()) || same_text(name, tool) {
            let mut script: String = "scripts/".to_owned();
            script.append(channels.as_str());
            script.append("-bridge.mjs");
            let bridge: String = override_or(channels_bridge, script.as_str());
            let mut args: Vec<String> = Vec::new();
            args.push(bridge);
            let mut env: Vec<(String, Option<String>)> = Vec::new();
            env.push(("ANTHROPIC_API_KEY".to_owned(), None));
            let r = Recipe {
                name: channels,
                kind: RecipeKind::ClaudeChannels,
                command: "node".to_owned(),
                args,
                env,
                pool_size: 1,
            };
            assert(r@.args =~= channels_recipe(tool@, bridge@).args);
            assert(r@.env =~= channels_recipe(tool@, bridge@).env);
            Some(r)
        } else if same_text(name, "mock") {
            let script: String = override_or(mock_agent, "tests/support/mock-acp-agent.mjs");
            Some(stdio("mock", "node", script))
        } else {
            None
        }
    }

    /// The names of all recipes.
    pub fn builtin_names(tool: &str) -> (r: Vec<String>)
        ensures
            text::texts(r@) == recipe_names(tool@),
    {
        let mut v: Vec<String> = Vec::new();
        push_text(&mut v, "gemini");
        push_text(&mut v, "codex");
        push_text(&mut v, channels_text(tool).as_str());
        push_text(&mut v, "mock");
        assert(text::texts(v@) =~= recipe_names(tool@));
        v
    }
}

/// The names of all recipes.
pub open spec fn recipe_names(tool: Seq<char>) -> Seq<Seq<char>> {
    seq!["gemini"@, "codex"@, channels_name(tool), "mock"@]
}

/// Every listed name is known, and stands for the recipe of that name. (A tool
/// named `mock` would be found in place of the mock agent.)
pub proof fn law_listed_names_are_known(
    tool: Seq<char>,
    i: int,
    bridge: Option<Seq<char>>,
    mock: Option<Seq<char>>,
)
    requires
        0 <= i < recipe_names(tool).len(),
        tool != "mock"@,
    ensures
        builtin_recipe(tool, recipe_names(tool)[i], bridge, mock) matches Some(r) && r.name
            == recipe_names(tool)[i],
{
    reveal_strlit("gemini");
    reveal_strlit("acp-stdio");
    reveal_strlit("codex");
    reveal_strlit("mock");
    reveal_strlit("-channels");
    let c = channels_name(tool);
    assert(c.last() == "-channels"@.last());
    assert(c.last() == 's');
    assert("gemini"@.last() == 'i' && "codex"@.last() == 'x' && "acp-stdio"@.last() == 'o'
        && "mock"@.last() == 'k');
}

/// Every name that is known leads to a listed one: an alias stands for the
/// recipe of its listed name.
pub proof fn law_known_recipes_are_listed(
    tool: Seq<char>,
    name: Seq<char>,
    bridge: Option<Seq<char>>,
    mock: Option<Seq<char>>,
)
    requires
        builtin_recipe(tool, name, bridge, mock) is Some,
    ensures
        recipe_names(tool).contains(builtin_recipe(tool, name, bridge, mock)->Some_0.name),
{
    assert(recipe_names(tool)[0] == "gemini"@);
    assert(recipe_names(tool)[1] == "codex"@);
    assert(recipe_names(tool)[2] == channels_name(tool));
    assert(recipe_names(tool)[3] == "mock"@);
}

/// Every recipe keeps one agent warm.
pub proof fn law_one_agent_is_kept_warm(
    tool: Seq<char>,
    name: Seq<char>,
    bridge: Option<Seq<char>>,
    mock: Option<Seq<char>>,
)
    requires
        builtin_recipe(tool, name, bridge, mock) is Some,
    ensures
        builtin_recipe(tool, name, bridge, mock)->Some_0.pool_size == 1,
{
}

/// Only the channels recipe is not raw ACP, and only it changes the
/// environment: it unsets the key.
pub proof fn law_channels_are_contained(
    tool: Seq<char>,
    name: Seq<char>,
    bridge: Option<Seq<char>>,
    mock: Option<Seq<char>>,
)
    requires
        builtin_recipe(tool, name, bridge, mock) is Some,
    ensures
        ({
            let r = builtin_recipe(tool, name, bridge, mock)->Some_0;
            if r.kind == RecipeKind::AcpStdio {
                r.env.len() == 0
            } else {
                r.env == seq![("ANTHROPIC_API_KEY"@, None::<Seq<char>>)]
            }
        }),
{
}

} // verus!
