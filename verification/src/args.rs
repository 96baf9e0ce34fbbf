//! The command line of the agent.

use vstd::prelude::*;

verus! {

/// The configuration file where none is named.
pub const DEFAULT_CONFIG_PATH: &'static str = "config.toml";

/// The name of the program where the system gives none.
pub const DEFAULT_PROGRAM_NAME: &'static str = "nodeget-agent";

/// What the command line says.
#[derive(Debug, Clone)]
pub struct AgentArgs {
    /// The configuration file.
    pub config: String,
    /// Whether only the version is asked for.
    pub version: bool,
}

impl AgentArgs {
    /// The command line to parse in place of an empty one: a lone program name asks for help.
    pub fn help_request(arg_count: usize, program: Option<String>) -> (r: Option<Vec<String>>)
        ensures
            r is Some <==> arg_count == 1,
            match r {
                Some(args) => {
                    &&& args@.len() == 2
                    &&& args@[0]@ == match program {
                        Some(name) => name@,
                        None => DEFAULT_PROGRAM_NAME@,
                    }
                    &&& args@[1]@ == "-h"@
                    &&& program is None ==> args@[0]@ == "nodeget-agent"@
                    &&& program is Some ==> args@[0]@ == (program->0)@
                },
                None => true,
            },
    {
        if arg_count != 1 {
            return None;
        }
        let name: String = match program {
            Some(name) => name,
            None => DEFAULT_PROGRAM_NAME.to_owned(),
        };
        let mut args: Vec<String> = Vec::new();
        args.push(name);
        args.push("-h".to_owned());
        Some(args)
    }
}

/// Where nothing is said of them, the configuration file is `config.toml` and the program
/// `nodeget-agent`.
pub proof fn law_command_line_defaults()
    ensures
        DEFAULT_CONFIG_PATH@ == "config.toml"@,
        DEFAULT_PROGRAM_NAME@ == "nodeget-agent"@,
{
}

} // verus!
