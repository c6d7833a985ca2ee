//! External commands as data: a program name and its arguments.
use vstd::prelude::*;
use crate::text::push_str;

verus! {

/// One command to run: `cmd arg1 arg2 ...`.
#[derive(Debug, Clone)]
pub struct Step {
    pub cmd: String,
    pub args: Vec<String>,
}

/// The texts of a sequence of strings.
pub open spec fn texts(v: Seq<String>) -> Seq<Seq<char>> {
    v.map_values(|s: String| s@)
}

/// `list.join(sep)`.
pub open spec fn join(list: Seq<Seq<char>>, sep: Seq<char>) -> Seq<char>
    decreases list.len(),
{
    if list.len() == 0 {
        Seq::empty()
    } else if list.len() == 1 {
        list[0]
    } else {
        join(list.drop_last(), sep) + sep + list.last()
    }
}

/// How a step is shown: the command, then its arguments separated by spaces.
pub open spec fn render_text(cmd: Seq<char>, args: Seq<Seq<char>>) -> Seq<char> {
    if args.len() == 0 {
        cmd
    } else {
        cmd + " "@ + join(args, " "@)
    }
}

impl Step {
    /// The command name and the argument texts.
    pub open spec fn model(&self) -> (Seq<char>, Seq<Seq<char>>) {
        (self.cmd@, texts(self.args@))
    }

    pub fn new(cmd: &str, args: Vec<String>) -> (r: Self)
        ensures
            r.cmd@ == cmd@,
            r.args@ == args@,
    {
        Step { cmd: cmd.to_owned(), args }
    }

    /// `cmd` alone when there are no arguments, else `cmd` and the arguments
    /// joined by single spaces.
    pub fn render(&self) -> (r: String)
        ensures
            r@ == render_text(self.cmd@, texts(self.args@)),
    {
        let mut out = self.cmd.clone();
        let n = self.args.len();
        if n == 0 {
            return out;
        }
        push_str(&mut out, " ");
        let ghost list = texts(self.args@);
        let mut i: usize = 0;
        while i < n
            invariant
                n == self.args.len(),
                list == texts(self.args@),
                n > 0,
                i <= n,
                i == 0 ==> out@ == self.cmd@ + " "@,
                i > 0 ==> out@ == self.cmd@ + " "@ + join(list.subrange(0, i as int), " "@),
            decreases n - i,
        {
            if i > 0 {
                push_str(&mut out, " ");
            }
            push_str(&mut out, self.args[i].as_str());
            proof {
                let sub = list.subrange(0, i + 1);
                assert(sub.drop_last() =~= list.subrange(0, i as int));
                if i == 0 {
                    assert(sub.len() == 1);
                }
            }
            i = i + 1;
        }
        assert(list.subrange(0, n as int) =~= list);
        out
    }
}

/// A vector of owned strings from string literals.
pub fn strings(items: &Vec<&str>) -> (r: Vec<String>)
    ensures
        r@.len() == items@.len(),
        forall|i: int| 0 <= i < items@.len() ==> (#[trigger] r@[i])@ == items@[i]@,
{
    let mut out: Vec<String> = Vec::new();
    let n = items.len();
    let mut i: usize = 0;
    while i < n
        invariant
            n == items@.len(),
            i <= n,
            out@.len() == i,
            forall|j: int| 0 <= j < i ==> (#[trigger] out@[j])@ == items@[j]@,
        decreases n - i,
    {
        out.push(items[i].to_owned());
        i = i + 1;
    }
    out
}


/// The texts of a sequence of string slices.
pub open spec fn str_texts(v: Seq<&str>) -> Seq<Seq<char>> {
    v.map_values(|s: &str| s@)
}

/// The models of a sequence of steps.
pub open spec fn steps_model(v: Seq<Step>) -> Seq<(Seq<char>, Seq<Seq<char>>)> {
    v.map_values(|s: Step| s.model())
}

/// A step from string slices.
pub fn step_of(cmd: &str, args: Vec<&str>) -> (r: Step)
    ensures
        r.model() == (cmd@, str_texts(args@)),
{
    let a = strings(&args);
    let r = Step::new(cmd, a);
    assert(texts(r.args@) =~= str_texts(args@));
    r
}

} // verus!
