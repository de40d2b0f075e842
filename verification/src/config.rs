//! The launch document and its parts: one debug session description,
//! built from a resolved program path, a working directory and the
//! arguments to hand to the debugged program.

use vstd::prelude::*;
use vstd::string::StringExecFns;

verus! {

/// One debugger-initialization directive, run before the debugged
/// program starts.
pub struct SetupCommand {
    pub description: String,
    pub text: String,
    pub ignore_failures: bool,
}

/// Mathematical image of a `SetupCommand`.
pub struct SetupCommandView {
    pub description: Seq<char>,
    pub text: Seq<char>,
    pub ignore_failures: bool,
}

impl View for SetupCommand {
    type V = SetupCommandView;

    open spec fn view(&self) -> SetupCommandView {
        SetupCommandView {
            description: self.description@,
            text: self.text@,
            ignore_failures: self.ignore_failures,
        }
    }
}

/// One debug-session description: the fixed identifying fields, the
/// program to launch, its arguments and working directory, and the
/// setup directives.
pub struct Config {
    pub name: String,
    pub config_type: String,
    pub request: String,
    pub args: Vec<String>,
    pub program: String,
    pub cwd: String,
    pub setup_commands: Vec<SetupCommand>,
}

/// Mathematical image of a `Config`.
pub struct ConfigView {
    pub name: Seq<char>,
    pub config_type: Seq<char>,
    pub request: Seq<char>,
    pub args: Seq<Seq<char>>,
    pub program: Seq<char>,
    pub cwd: Seq<char>,
    pub setup_commands: Seq<SetupCommandView>,
}

impl View for Config {
    type V = ConfigView;

    open spec fn view(&self) -> ConfigView {
        ConfigView {
            name: self.name@,
            config_type: self.config_type@,
            request: self.request@,
            args: self.args.deep_view(),
            program: self.program@,
            cwd: self.cwd@,
            setup_commands: self.setup_commands@.map_values(|sc: SetupCommand| sc@),
        }
    }
}

/// The one setup directive every configuration carries: enable the
/// debugger's pretty-printing, and go on if that fails.
pub open spec fn setup_command_wf(sc: SetupCommandView) -> bool {
    &&& sc.description == "Enable pretty-printing for gdb"@
    &&& sc.text == "-enable-pretty-printing"@
    &&& sc.ignore_failures == true
}

/// The fixed fields every configuration carries: its label, the
/// debugger backend, a launch (not attach) session, and exactly one
/// setup directive.
pub open spec fn config_wf(c: ConfigView) -> bool {
    &&& c.name == "c++ launch"@
    &&& c.config_type == "cppdbg"@
    &&& c.request == "launch"@
    &&& c.setup_commands.len() == 1
    &&& setup_command_wf(c.setup_commands[0])
}

impl Config {
    /// Builds the one configuration of a run: the fixed fields, the
    /// already-resolved program path, the working directory, and the
    /// trailing arguments stored verbatim, in order.
    pub fn new(program: String, cwd: String, args: Vec<String>) -> (r: Config)
        ensures
            config_wf(r@),
            r@.program == program@,
            r@.cwd == cwd@,
            r@.args == args.deep_view(),
    {
        let mut setup_commands: Vec<SetupCommand> = Vec::new();
        setup_commands.push(SetupCommand {
            description: String::from_str("Enable pretty-printing for gdb"),
            text: String::from_str("-enable-pretty-printing"),
            ignore_failures: true,
        });
        let r = Config {
            name: String::from_str("c++ launch"),
            config_type: String::from_str("cppdbg"),
            request: String::from_str("launch"),
            args,
            program,
            cwd,
            setup_commands,
        };
        proof {
            assert(r@.setup_commands.len() == 1);
            assert(setup_command_wf(r@.setup_commands[0]));
        }
        r
    }
}

/// An argument as the older output style stores it: between literal
/// double-quote characters.
pub open spec fn quote_wrapped(a: Seq<char>) -> Seq<char> {
    seq!['"'] + a + seq!['"']
}

impl Config {
    /// Builds the one configuration of a run with the two stylistic
    /// choices the older output made explicit: wrapping each trailing
    /// argument in literal quote characters, and standing the fixed
    /// workspace-root token in place of the real working directory.
    pub fn new_with_options(
        program: String,
        cwd: String,
        args: Vec<String>,
        quote_args: bool,
        placeholder_cwd: bool,
    ) -> (r: Config)
        ensures
            config_wf(r@),
            r@.program == program@,
            r@.cwd == if placeholder_cwd {
                "${workspaceRoot}"@
            } else {
                cwd@
            },
            r@.args == if quote_args {
                args.deep_view().map_values(|a: Seq<char>| quote_wrapped(a))
            } else {
                args.deep_view()
            },
    {
        let stored_cwd = if placeholder_cwd {
            String::from_str("${workspaceRoot}")
        } else {
            cwd
        };
        if !quote_args {
            Config::new(program, stored_cwd, args)
        } else {
            let ghost in_view = args.deep_view();
            let mut stored: Vec<String> = Vec::new();
            let mut i: usize = 0;
            while i < args.len()
                invariant
                    i <= args@.len(),
                    in_view == args.deep_view(),
                    stored.deep_view() == in_view.subrange(0, i as int).map_values(
                        |a: Seq<char>| quote_wrapped(a),
                    ),
                decreases args@.len() - i,
            {
                let mut wrapped = String::from_str("\"");
                wrapped.append(args[i].as_str());
                wrapped.append("\"");
                let ghost pre = stored.deep_view();
                proof {
                    reveal_strlit("\"");
                    assert(wrapped@ =~= quote_wrapped(in_view[i as int]));
                    assert(pre.len() == i);
                    assert(stored@.len() == i);
                }
                stored.push(wrapped);
                proof {
                    assert forall|k: int| 0 <= k < i + 1 implies #[trigger] stored.deep_view()[k]
                        == quote_wrapped(in_view[k]) by {
                        if k < i {
                            assert(stored.deep_view()[k] == pre[k]);
                            assert(pre[k] == quote_wrapped(in_view.subrange(0, i as int)[k]));
                        } else {
                            assert(stored.deep_view()[k] == wrapped@);
                        }
                    }
                    assert(stored.deep_view() =~~= in_view.subrange(0, (i + 1) as int).map_values(
                        |a: Seq<char>| quote_wrapped(a),
                    ));
                }
                i = i + 1;
            }
            proof {
                assert(in_view.subrange(0, args@.len() as int) =~= in_view);
                assert(stored.deep_view() =~~= in_view.map_values(
                    |a: Seq<char>| quote_wrapped(a),
                ));
            }
            Config::new(program, stored_cwd, stored)
        }
    }
}

/// The whole document: a sequence of configurations (always exactly
/// one in this tool) under a single key.
pub struct Launch {
    pub configurations: Vec<Config>,
}

/// Mathematical image of a `Launch`.
pub struct LaunchView {
    pub configurations: Seq<ConfigView>,
}

impl View for Launch {
    type V = LaunchView;

    open spec fn view(&self) -> LaunchView {
        LaunchView { configurations: self.configurations@.map_values(|c: Config| c@) }
    }
}

impl Launch {
    /// Wraps one configuration as the whole document.
    pub fn new(config: Config) -> (r: Launch)
        ensures
            r@.configurations =~= seq![config@],
    {
        let mut configs: Vec<Config> = Vec::new();
        configs.push(config);
        Launch { configurations: configs }
    }
}

/// A launch document made of one well-formed configuration holds
/// exactly one entry, and that entry names the fixed backend and the
/// fixed request kind.
pub proof fn lemma_single_configuration(c: ConfigView, l: LaunchView)
    requires
        l.configurations == seq![c],
        config_wf(c),
    ensures
        l.configurations.len() == 1,
        l.configurations[0].config_type == "cppdbg"@,
        l.configurations[0].request == "launch"@,
{
}

} // verus!
