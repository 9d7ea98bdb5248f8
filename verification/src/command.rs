//! Programs to run, as plain data: the caller starts them.

use crate::text::texts;
use vstd::prelude::*;

verus! {

/// A program with its arguments and the changes to its environment.
#[derive(Debug, Clone, PartialEq, Eq)]
pub struct CommandPlan {
    pub program: String,
    pub args: Vec<String>,
    /// Variables to set, with their values, in order.
    pub env: Vec<(String, String)>,
    /// Variables to remove.
    pub env_remove: Vec<String>,
}

/// What a command plan says, as plain text.
#[verifier::ext_equal]
pub struct Invocation {
    pub program: Seq<char>,
    pub args: Seq<Seq<char>>,
    pub env: Seq<(Seq<char>, Seq<char>)>,
    pub env_remove: Seq<Seq<char>>,
}

impl View for CommandPlan {
    type V = Invocation;

    open spec fn view(&self) -> Invocation {
        Invocation {
            program: self.program@,
            args: texts(self.args@),
            env: self.env@.map_values(|kv: (String, String)| (kv.0@, kv.1@)),
            env_remove: texts(self.env_remove@),
        }
    }
}

/// A program with arguments, in the caller's environment.
pub open spec fn plain_command(program: Seq<char>, args: Seq<Seq<char>>) -> Invocation {
    Invocation { program, args, env: Seq::empty(), env_remove: Seq::empty() }
}

/// A program with arguments, on the given X display.
pub open spec fn display_command(
    program: Seq<char>,
    args: Seq<Seq<char>>,
    x_display: Seq<char>,
) -> Invocation {
    Invocation { program, args, env: seq![("DISPLAY"@, x_display)], env_remove: Seq::empty() }
}

impl CommandPlan {
    /// The program without arguments.
    pub fn new(program: &str) -> (r: Self)
        ensures
            r@ == plain_command(program@, Seq::empty()),
    {
        let r = CommandPlan {
            program: program.to_owned(),
            args: Vec::new(),
            env: Vec::new(),
            env_remove: Vec::new(),
        };
        assert(r@ =~= plain_command(program@, Seq::empty()));
        r
    }

    /// Adds an argument.
    pub fn arg(&mut self, arg: &str)
        ensures
            final(self)@ == (Invocation { args: old(self)@.args.push(arg@), ..old(self)@ }),
    {
        self.args.push(arg.to_owned());
        assert(self@ =~= Invocation { args: old(self)@.args.push(arg@), ..old(self)@ });
    }

    /// Sets a variable of the environment.
    pub fn env(&mut self, name: &str, value: &str)
        ensures
            final(self)@ == (Invocation {
                env: old(self)@.env.push((name@, value@)),
                ..old(self)@
            }),
    {
        self.env.push((name.to_owned(), value.to_owned()));
        assert(self@ =~= Invocation { env: old(self)@.env.push((name@, value@)), ..old(self)@ });
    }

    /// Removes a variable from the environment.
    pub fn unset(&mut self, name: &str)
        ensures
            final(self)@ == (Invocation {
                env_remove: old(self)@.env_remove.push(name@),
                ..old(self)@
            }),
    {
        self.env_remove.push(name.to_owned());
        assert(self@ =~= Invocation {
            env_remove: old(self)@.env_remove.push(name@),
            ..old(self)@
        });
    }

    /// Adds each of the given arguments.
    pub fn args(&mut self, args: &Vec<String>)
        ensures
            final(self)@ == (Invocation { args: old(self)@.args + texts(args@), ..old(self)@ }),
    {
        let ghost before = self@;
        let mut i: usize = 0;
        assert(before.args + texts(args@).take(0) =~= before.args);
        while i < args.len()
            invariant
                i <= args@.len(),
                self@ == (Invocation { args: before.args + texts(args@).take(i as int), ..before }),
            decreases args.len() - i,
        {
            self.arg(args[i].as_str());
            i = i + 1;
            assert(before.args + texts(args@).take(i as int) =~= (before.args + texts(args@).take(
                i - 1,
            )).push(args@[i - 1]@));
        }
        assert(texts(args@).take(args@.len() as int) =~= texts(args@));
    }
}

} // verus!
