use vstd::prelude::*;

use crate::args::texts;
use crate::text::{
    debug_quote_of, debug_quoted, decimal, decimal_text, struct_debug_text, struct_text,
};

verus! {

/// The debug entry of one problem.
pub open spec fn problem_entry(p: Seq<char>) -> Seq<char> {
    "error: "@ + debug_quote_of(p)
}

/// The problems found by `Args::check`, one message each, in order.
pub struct ArgsError {
    problems: Vec<String>,
}

impl View for ArgsError {
    type V = Seq<Seq<char>>;

    closed spec fn view(&self) -> Seq<Seq<char>> {
        texts(self.problems@)
    }
}

impl ArgsError {
    fn new(problem: String) -> (r: ArgsError)
        ensures
            r@ == seq![problem@],
    {
        let ghost p = problem@;
        let mut problems: Vec<String> = Vec::new();
        problems.push(problem);
        let r = ArgsError { problems };
        assert(r@ =~= seq![p]);
        r
    }

    /// An error holding a copy of `problems`.
    pub fn from_problems(problems: &[String]) -> (r: ArgsError)
        ensures
            r@ == texts(problems@),
    {
        let mut out: Vec<String> = Vec::new();
        let mut i: usize = 0;
        while i < problems.len()
            invariant
                i <= problems@.len(),
                texts(out@) == texts(problems@).subrange(0, i as int),
            decreases problems@.len() - i,
        {
            let ghost pre = texts(out@);
            out.push(problems[i].clone());
            assert(texts(out@) =~= pre.push(problems@[i as int]@));
            assert(texts(problems@).subrange(0, i as int + 1) =~= texts(problems@).subrange(
                0,
                i as int,
            ).push(problems@[i as int]@));
            i = i + 1;
        }
        assert(texts(problems@).subrange(0, i as int) =~= texts(problems@));
        ArgsError { problems: out }
    }

    pub fn get_problems(&self) -> (r: &[String])
        ensures
            texts(r@) == self@,
    {
        self.problems.as_slice()
    }

    /// `ArgsError - <count> problems`.
    pub fn to_string(&self) -> (r: String)
        ensures
            r@ == "ArgsError - "@ + decimal(self@.len()) + " problems"@,
    {
        let mut out = String::from_str("ArgsError - ");
        let count = decimal_text(self.problems.len());
        out.append(count.as_str());
        out.append(" problems");
        out
    }

    /// `ArgsError { error: "p1", error: "p2" }`, each problem quoted as `{:?}`
    /// quotes a string.
    pub fn to_debug_string(&self) -> (r: String)
        ensures
            r@ == struct_text("ArgsError"@, self@.map_values(|p: Seq<char>| problem_entry(p))),
    {
        let ghost entries = self@.map_values(|p: Seq<char>| problem_entry(p));
        let mut out: Vec<String> = Vec::new();
        let mut i: usize = 0;
        while i < self.problems.len()
            invariant
                entries == self@.map_values(|p: Seq<char>| problem_entry(p)),
                i <= self.problems@.len(),
                texts(out@) == entries.subrange(0, i as int),
            decreases self.problems@.len() - i,
        {
            let ghost pre = texts(out@);
            let mut e = String::from_str("error: ");
            let quoted = debug_quoted(self.problems[i].as_str());
            e.append(quoted.as_str());
            out.push(e);
            assert(texts(out@) =~= pre.push(entries[i as int]));
            assert(entries.subrange(0, i as int + 1) =~= entries.subrange(0, i as int).push(
                entries[i as int],
            ));
            i = i + 1;
        }
        assert(entries.subrange(0, i as int) =~= entries);
        struct_debug_text("ArgsError", &out)
    }
}

// `from` builds a fresh value that no spec expression can name: the contract
// stands on `from_problems`, and on `new` for a single problem.
impl From<&str> for ArgsError {
    fn from(value: &str) -> ArgsError {
        ArgsError::new(String::from_str(value))
    }
}

impl vstd::std_specs::convert::FromSpecImpl<&str> for ArgsError {
    open spec fn obeys_from_spec() -> bool {
        false
    }

    open spec fn from_spec(v: &str) -> ArgsError {
        arbitrary()
    }
}

impl From<String> for ArgsError {
    fn from(value: String) -> ArgsError {
        ArgsError::new(value)
    }
}

impl vstd::std_specs::convert::FromSpecImpl<String> for ArgsError {
    open spec fn obeys_from_spec() -> bool {
        false
    }

    open spec fn from_spec(v: String) -> ArgsError {
        arbitrary()
    }
}

impl From<&[String]> for ArgsError {
    fn from(value: &[String]) -> ArgsError {
        ArgsError::from_problems(value)
    }
}

impl vstd::std_specs::convert::FromSpecImpl<&[String]> for ArgsError {
    open spec fn obeys_from_spec() -> bool {
        false
    }

    open spec fn from_spec(v: &[String]) -> ArgsError {
        arbitrary()
    }
}

impl From<&Vec<String>> for ArgsError {
    fn from(value: &Vec<String>) -> ArgsError {
        ArgsError::from_problems(value.as_slice())
    }
}

impl vstd::std_specs::convert::FromSpecImpl<&Vec<String>> for ArgsError {
    open spec fn obeys_from_spec() -> bool {
        false
    }

    open spec fn from_spec(v: &Vec<String>) -> ArgsError {
        arbitrary()
    }
}

} // verus!
