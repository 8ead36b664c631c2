//! A description of an external program to run: its name, its arguments and
//! where its output goes.  The caller spawns it.
use vstd::prelude::*;

use crate::text::views;

verus! {

/// A program with its arguments.
#[derive(Clone, Debug)]
pub struct Cmd {
    pub program: String,
    pub args: Vec<String>,
    /// Standard output and standard error go nowhere.
    pub hide_output: bool,
    /// Standard error goes to this process's standard error.
    pub pipe_stderr: bool,
}

pub struct CmdView {
    pub program: Seq<char>,
    pub args: Seq<Seq<char>>,
    pub hide_output: bool,
    pub pipe_stderr: bool,
}

impl View for Cmd {
    type V = CmdView;

    open spec fn view(&self) -> CmdView {
        CmdView {
            program: self.program@,
            args: views(self.args@),
            hide_output: self.hide_output,
            pipe_stderr: self.pipe_stderr,
        }
    }
}

/// `program` with `args` and its output left as it is.
pub open spec fn command_line(program: Seq<char>, args: Seq<Seq<char>>) -> CmdView {
    CmdView { program, args, hide_output: false, pipe_stderr: false }
}

impl CmdView {
    /// The same command with `more` appended to its arguments.
    pub open spec fn with_args(self, more: Seq<Seq<char>>) -> CmdView {
        CmdView { args: self.args + more, ..self }
    }
}

impl Cmd {
    /// `bin` with no arguments.
    pub fn new(bin: &str) -> (r: Cmd)
        ensures
            r@ == command_line(bin@, seq![]),
    {
        let args: Vec<String> = Vec::new();
        let r = Cmd { program: bin.to_owned(), args, hide_output: false, pipe_stderr: false };
        assert(views(r.args@) =~= Seq::<Seq<char>>::empty());
        r
    }

    /// The command with `arg` appended.
    pub fn arg(self, arg: &str) -> (r: Cmd)
        ensures
            r@ == self@.with_args(seq![arg@]),
    {
        let mut c = self;
        let ghost before = c.args@;
        c.args.push(arg.to_owned());
        assert(views(c.args@) =~= views(before) + seq![arg@]);
        c
    }

    /// The command with `more` appended, in order.
    pub fn args(self, more: &[String]) -> (r: Cmd)
        ensures
            r@ == self@.with_args(views(more@)),
    {
        let mut c = self;
        let ghost start = views(c.args@);
        let mut i: usize = 0;
        while i < more.len()
            invariant
                i <= more@.len(),
                views(c.args@) == start + views(more@).take(i as int),
                c.program@ == self.program@,
                c.hide_output == self.hide_output,
                c.pipe_stderr == self.pipe_stderr,
                start == views(self.args@),
            decreases more@.len() - i,
        {
            let ghost before = c.args@;
            c.args.push(more[i].clone());
            assert(views(c.args@) =~= views(before).push(more@[i as int]@));
            assert(views(more@)[i as int] == more@[i as int]@);
            assert(views(c.args@) =~= start + views(more@).take(i + 1));
            i = i + 1;
        }
        assert(views(more@).take(i as int) =~= views(more@));
        c
    }

    /// The command with its output discarded.
    pub fn hide_output(self) -> (r: Cmd)
        ensures
            r@ == (CmdView { hide_output: true, ..self@ }),
    {
        let mut c = self;
        c.hide_output = true;
        c
    }

    /// The command with its standard error passed through.
    pub fn pipe_stderr(self) -> (r: Cmd)
        ensures
            r@ == (CmdView { pipe_stderr: true, ..self@ }),
    {
        let mut c = self;
        c.pipe_stderr = true;
        c
    }
}

} // verus!
