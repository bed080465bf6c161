use vstd::prelude::*;

use crate::error::ArgsError;
use crate::text::{
    concat_all, debug_quote_of, debug_quoted, final_segment, path_final_segment, struct_debug_text,
    struct_text,
};

verus! {

/// A token is a flag when its first character is `-` or `+`. The empty token
/// has no first character and is positional.
pub open spec fn is_flag(t: Seq<char>) -> bool {
    t.len() > 0 && (t[0] == '-' || t[0] == '+')
}

pub open spec fn flag_token() -> spec_fn(Seq<char>) -> bool {
    |t: Seq<char>| is_flag(t)
}

pub open spec fn positional_token() -> spec_fn(Seq<char>) -> bool {
    |t: Seq<char>| !is_flag(t)
}

/// The characters of each string, in order.
pub open spec fn texts(v: Seq<String>) -> Seq<Seq<char>> {
    v.map_values(|s: String| s@)
}

pub open spec fn opt_text(o: Option<String>) -> Option<Seq<char>> {
    match o {
        Some(s) => Some(s@),
        None => None,
    }
}

/// The problem recorded for a required field that found no value.
pub open spec fn missing_problem(name: Seq<char>) -> Seq<char> {
    "required argument '"@ + name + "' not found"@
}

/// Tells whether `s` is a flag token.
pub fn is_flag_token(s: &str) -> (r: bool)
    ensures
        r == is_flag(s@),
{
    if s.unicode_len() == 0 {
        false
    } else {
        let c = s.get_char(0);
        c == '-' || c == '+'
    }
}

/// A field that was bound to a value, by the kind of its declaration.
pub enum Arg {
    Required(String),
    Optional(String),
}

impl Arg {
    pub open spec fn text(&self) -> Seq<char> {
        match self {
            Arg::Required(v) => v@,
            Arg::Optional(v) => v@,
        }
    }

    /// The bound value.
    pub fn value(&self) -> (r: &String)
        ensures
            r@ == self.text(),
    {
        match self {
            Arg::Required(v) => v,
            Arg::Optional(v) => v,
        }
    }
}

/// A declared field as the model sees it.
pub struct FieldModel {
    pub name: Seq<char>,
    pub required: bool,
    pub value: Option<Seq<char>>,
}

/// The abstract state of an `Args`.
#[verifier::ext_equal]
pub struct ArgsModel {
    pub program_name: Option<Seq<char>>,
    /// The positional candidates, in input order.
    pub positionals: Seq<Seq<char>>,
    /// The flag tokens, in input order.
    pub flags: Seq<Seq<char>>,
    /// The declared fields, in declaration order.
    pub fields: Seq<FieldModel>,
    /// The flags declared for display.
    pub possible_flags: Seq<Seq<char>>,
    /// One message per required field that found no value, in order.
    pub problems: Seq<Seq<char>>,
}

impl ArgsModel {
    /// The state right after construction from `tokens`.
    pub open spec fn parsed(tokens: Seq<Seq<char>>) -> ArgsModel {
        ArgsModel {
            program_name: None,
            positionals: tokens.filter(positional_token()),
            flags: tokens.filter(flag_token()),
            fields: Seq::empty(),
            possible_flags: Seq::empty(),
            problems: Seq::empty(),
        }
    }

    /// The index of the next unclaimed positional candidate.
    pub open spec fn cursor(self) -> nat {
        if self.fields.len() < self.positionals.len() {
            self.fields.len()
        } else {
            self.positionals.len()
        }
    }

    /// The candidate that the next declaration binds, if any is left.
    pub open spec fn next_value(self) -> Option<Seq<char>> {
        if self.cursor() < self.positionals.len() {
            Some(self.positionals[self.cursor() as int])
        } else {
            None
        }
    }

    pub open spec fn declares(self, name: Seq<char>) -> bool {
        exists|i: int| 0 <= i < self.fields.len() && self.fields[i].name == name
    }

    pub open spec fn has_optional(self) -> bool {
        exists|i: int| 0 <= i < self.fields.len() && !self.fields[i].required
    }

    /// The state after declaring field `name`: it takes the next candidate,
    /// and a required field that finds none records a problem.
    pub open spec fn declare(self, name: Seq<char>, required: bool) -> ArgsModel {
        ArgsModel {
            fields: self.fields.push(FieldModel { name, required, value: self.next_value() }),
            problems: if required && self.next_value() is None {
                self.problems.push(missing_problem(name))
            } else {
                self.problems
            },
            ..self
        }
    }

    /// The value bound to field `name`; `None` for an unknown or unbound field.
    pub open spec fn value_of(self, name: Seq<char>) -> Option<Seq<char>> {
        if self.declares(name) {
            self.fields[choose|i: int| 0 <= i < self.fields.len() && self.fields[i].name == name].value
        } else {
            None
        }
    }

    /// Field names are unique, required fields come first, each field holds
    /// the candidate at its position, and the tokens are split by `is_flag`.
    pub open spec fn valid(self) -> bool {
        &&& forall|i: int, j: int|
            0 <= i < j < self.fields.len() ==> self.fields[i].name != self.fields[j].name
        &&& forall|i: int, j: int|
            0 <= i < j < self.fields.len() && self.fields[j].required ==> self.fields[i].required
        &&& forall|i: int|
            0 <= i < self.fields.len() ==> #[trigger] self.fields[i].value == if i
                < self.positionals.len() {
                Some(self.positionals[i])
            } else {
                None
            }
        &&& forall|i: int| 0 <= i < self.positionals.len() ==> !is_flag(#[trigger] self.positionals[i])
        &&& forall|i: int| 0 <= i < self.flags.len() ==> is_flag(#[trigger] self.flags[i])
        &&& forall|i: int, j: int|
            0 <= i < j < self.possible_flags.len() ==> self.possible_flags[i]
                != self.possible_flags[j]
    }
}

struct Field {
    name: String,
    required: bool,
}

/// Positional values bound to declared fields, and the flags of one command line.
pub struct Args {
    program_name: Option<String>,
    command_line: Vec<String>,
    flags: Vec<String>,
    fields: Vec<Field>,
    /// The bound values: `args[i]` belongs to `fields[i]`.
    args: Vec<Arg>,
    possible_flags: Vec<String>,
    error_list: Vec<String>,
}

impl View for Args {
    type V = ArgsModel;

    closed spec fn view(&self) -> ArgsModel {
        ArgsModel {
            program_name: opt_text(self.program_name),
            positionals: texts(self.command_line@),
            flags: texts(self.flags@),
            fields: Seq::new(
                self.fields@.len(),
                |i: int|
                    FieldModel {
                        name: self.fields@[i].name@,
                        required: self.fields@[i].required,
                        value: if i < self.args@.len() {
                            Some(self.args@[i].text())
                        } else {
                            None
                        },
                    },
            ),
            possible_flags: texts(self.possible_flags@),
            problems: texts(self.error_list@),
        }
    }
}

impl Args {
    /// The bound values are the first candidates, one per field in order and
    /// of the field's kind, and the model is valid.
    pub closed spec fn wf(&self) -> bool {
        &&& self.args@.len() == self@.cursor()
        &&& forall|i: int|
            0 <= i < self.args@.len() ==> (#[trigger] self.args@[i]).text()
                == self.command_line@[i]@ && (self.args@[i] is Required)
                == self.fields@[i].required
        &&& self@.valid()
    }

    /// Splits `tokens` into positional candidates and flags, keeping their order.
    pub fn from_strings(tokens: Vec<String>) -> (r: Args)
        ensures
            r.wf(),
            r@ == ArgsModel::parsed(texts(tokens@)),
    {
        let ghost all = texts(tokens@);
        let mut command_line: Vec<String> = Vec::new();
        let mut flags: Vec<String> = Vec::new();
        let mut i: usize = 0;
        while i < tokens.len()
            invariant
                all == texts(tokens@),
                i <= tokens.len(),
                texts(command_line@) == all.subrange(0, i as int).filter(positional_token()),
                texts(flags@) == all.subrange(0, i as int).filter(flag_token()),
                forall|k: int| 0 <= k < command_line@.len() ==> !is_flag(#[trigger] command_line@[k]@),
                forall|k: int| 0 <= k < flags@.len() ==> is_flag(#[trigger] flags@[k]@),
            decreases tokens.len() - i,
        {
            let t = tokens[i].clone();
            proof {
                reveal(Seq::filter);
                let pre = all.subrange(0, i as int + 1);
                assert(pre.drop_last() =~= all.subrange(0, i as int));
                assert(pre.last() == t@);
            }
            if is_flag_token(t.as_str()) {
                flags.push(t);
                assert(texts(flags@) =~= texts(flags@).drop_last().push(t@));
                assert(texts(flags@).drop_last() =~= all.subrange(0, i as int).filter(flag_token()));
            } else {
                command_line.push(t);
                assert(texts(command_line@) =~= texts(command_line@).drop_last().push(t@));
                assert(texts(command_line@).drop_last() =~= all.subrange(0, i as int).filter(
                    positional_token(),
                ));
            }
            i = i + 1;
        }
        assert(all.subrange(0, i as int) =~= all);
        let r = Args {
            program_name: None,
            command_line,
            flags,
            fields: Vec::new(),
            args: Vec::new(),
            possible_flags: Vec::new(),
            error_list: Vec::new(),
        };
        assert(r@ =~= ArgsModel::parsed(all));
        r
    }

    /// Like `from_strings`, for borrowed tokens.
    pub fn from_strs(tokens: Vec<&str>) -> (r: Args)
        ensures
            r.wf(),
            r@ == ArgsModel::parsed(tokens@.map_values(|t: &str| t@)),
    {
        let mut owned: Vec<String> = Vec::new();
        let mut i: usize = 0;
        while i < tokens.len()
            invariant
                i <= tokens.len(),
                texts(owned@) == tokens@.map_values(|t: &str| t@).subrange(0, i as int),
            decreases tokens.len() - i,
        {
            let ghost pre = texts(owned@);
            owned.push(String::from_str(tokens[i]));
            assert(texts(owned@) =~= pre.push(tokens@[i as int]@));
            assert(tokens@.map_values(|t: &str| t@).subrange(0, i as int + 1) =~= tokens@.map_values(
                |t: &str| t@,
            ).subrange(0, i as int).push(tokens@[i as int]@));
            i = i + 1;
        }
        assert(tokens@.map_values(|t: &str| t@).subrange(0, i as int) =~= tokens@.map_values(
            |t: &str| t@,
        ));
        Args::from_strings(owned)
    }

    /// Sets or clears the name shown in front of the usage line.
    pub fn set_program_name(&mut self, name: Option<String>)
        requires
            old(self).wf(),
        ensures
            final(self).wf(),
            final(self)@ == (ArgsModel { program_name: opt_text(name), ..old(self)@ }),
    {
        self.program_name = name;
        assert(self@ =~= (ArgsModel { program_name: opt_text(name), ..old(self)@ }));
    }

    /// The program name as it was set.
    pub fn get_program_name(&self) -> (r: Option<String>)
        ensures
            opt_text(r) == self@.program_name,
    {
        match &self.program_name {
            Some(p) => Some(p.clone()),
            None => None,
        }
    }

    /// The position of the field declared as `name`.
    fn find_field(&self, name: &String) -> (r: Option<usize>)
        requires
            self.wf(),
        ensures
            match r {
                Some(i) => i < self@.fields.len() && self@.fields[i as int].name == name@,
                None => !self@.declares(name@),
            },
    {
        let mut i: usize = 0;
        while i < self.fields.len()
            invariant
                self.wf(),
                i <= self.fields.len(),
                forall|k: int| 0 <= k < i ==> self@.fields[k].name != name@,
            decreases self.fields.len() - i,
        {
            if self.fields[i].name == *name {
                return Some(i);
            }
            i = i + 1;
        }
        None
    }

    /// Tells whether a field named `name` was declared.
    pub fn is_declared(&self, name: &str) -> (r: bool)
        requires
            self.wf(),
        ensures
            r == self@.declares(name@),
    {
        let wanted = String::from_str(name);
        self.find_field(&wanted).is_some()
    }

    /// Tells whether an optional field was declared.
    pub fn has_optional(&self) -> (r: bool)
        requires
            self.wf(),
        ensures
            r == self@.has_optional(),
    {
        let n = self.fields.len();
        if n == 0 {
            false
        } else {
            // Required fields come first, so the last field tells.
            let r = !self.fields[n - 1].required;
            if !r {
                assert forall|k: int| 0 <= k < n implies self@.fields[k].required by {
                    if k < n - 1 {
                        assert(self@.fields[n - 1].required);
                    }
                }
            }
            assert(r ==> !self@.fields[n - 1].required);
            r
        }
    }

    /// Tells whether flag `name` was declared for display.
    pub fn is_flag_declared(&self, name: &str) -> (r: bool)
        requires
            self.wf(),
        ensures
            r == self@.possible_flags.contains(name@),
    {
        let wanted = String::from_str(name);
        let mut i: usize = 0;
        while i < self.possible_flags.len()
            invariant
                self.wf(),
                wanted@ == name@,
                i <= self.possible_flags.len(),
                forall|k: int| 0 <= k < i ==> self@.possible_flags[k] != wanted@,
            decreases self.possible_flags.len() - i,
        {
            if self.possible_flags[i] == wanted {
                assert(self@.possible_flags[i as int] == self.possible_flags@[i as int]@);
                assert(self@.possible_flags[i as int] == name@);
                assert(self@.possible_flags.contains(name@));
                return true;
            }
            i = i + 1;
        }
        false
    }

    /// Appends field `name`, bound to the next candidate if any is left.
    fn declare(&mut self, name: &str, required: bool)
        requires
            old(self).wf(),
            !old(self)@.declares(name@),
            required ==> !old(self)@.has_optional(),
        ensures
            final(self).wf(),
            final(self)@ == old(self)@.declare(name@, required),
    {
        let ghost pre = self@;
        let k = self.args.len();
        if k < self.command_line.len() {
            let v = self.command_line[k].clone();
            if required {
                self.args.push(Arg::Required(v));
            } else {
                self.args.push(Arg::Optional(v));
            }
        } else if required {
            let mut msg = String::from_str("required argument '");
            msg.append(name);
            msg.append("' not found");
            self.error_list.push(msg);
            assert(texts(self.error_list@) =~= pre.problems.push(missing_problem(name@)));
        }
        self.fields.push(Field { name: String::from_str(name), required });
        let ghost post = pre.declare(name@, required);
        assert(self@.fields =~= post.fields);
        assert(self@.problems =~= post.problems);
        assert(self@ =~= post);
    }

    /// Declares required field `name`. It takes the next positional candidate;
    /// when none is left, a problem naming the field is recorded.
    ///
    /// Declaring a name twice, or a required field after an optional one, is a
    /// programming error that callers must rule out.
    pub fn required(&mut self, name: &str) -> (r: &mut Args)
        requires
            old(self).wf(),
            !old(self)@.declares(name@),
            !old(self)@.has_optional(),
        ensures
            r.wf(),
            r@ == old(self)@.declare(name@, true),
            *final(self) == *final(r),
    {
        self.declare(name, true);
        self
    }

    /// Declares optional field `name`. It takes the next positional candidate
    /// if any is left; no problem is ever recorded for it.
    ///
    /// Declaring a name twice is a programming error that callers must rule out.
    pub fn optional(&mut self, name: &str) -> (r: &mut Args)
        requires
            old(self).wf(),
            !old(self)@.declares(name@),
        ensures
            r.wf(),
            r@ == old(self)@.declare(name@, false),
            r@.problems == old(self)@.problems,
            *final(self) == *final(r),
    {
        self.declare(name, false);
        self
    }

    /// Declares flag `name` for the usage line. Whether the flag is present is
    /// independent of this.
    ///
    /// Declaring a flag twice is a programming error that callers must rule out.
    pub fn flag(&mut self, name: &str) -> (r: &mut Args)
        requires
            old(self).wf(),
            !old(self)@.possible_flags.contains(name@),
        ensures
            r.wf(),
            r@ == (ArgsModel { possible_flags: old(self)@.possible_flags.push(name@), ..old(self)@ }),
            *final(self) == *final(r),
    {
        let ghost pre = self@;
        self.possible_flags.push(String::from_str(name));
        assert(self@.possible_flags =~= pre.possible_flags.push(name@));
        assert(self@ =~= (ArgsModel { possible_flags: pre.possible_flags.push(name@), ..pre }));
        self
    }
    /// Succeeds when no required field went without a value; otherwise fails
    /// with every recorded problem, in order.
    pub fn check(&self) -> (r: Result<&Args, ArgsError>)
        requires
            self.wf(),
        ensures
            match r {
                Ok(a) => self@.problems.len() == 0 && a == self,
                Err(e) => self@.problems.len() > 0 && e@ == self@.problems,
            },
    {
        if self.error_list.len() == 0 {
            Ok(self)
        } else {
            Err(ArgsError::from_problems(self.error_list.as_slice()))
        }
    }

    /// The value bound to field `name`, or `None` when no such field was
    /// declared or it found no value.
    pub fn get_arg(&self, name: &str) -> (r: Option<String>)
        requires
            self.wf(),
        ensures
            opt_text(r) == self@.value_of(name@),
    {
        let wanted = String::from_str(name);
        match self.find_field(&wanted) {
            Some(i) => {
                assert(self@.declares(name@));
                let ghost j = choose|j: int|
                    0 <= j < self@.fields.len() && self@.fields[j].name == name@;
                assert(j == i as int) by {
                    if j != i as int {
                        assert(self@.fields[j].name == self@.fields[i as int].name);
                    }
                }
                if i < self.args.len() {
                    Some(self.args[i].value().clone())
                } else {
                    None
                }
            },
            None => None,
        }
    }

    /// Tells whether `name` was among the flag tokens, declared or not.
    pub fn has_flag(&self, name: &str) -> (r: bool)
        requires
            self.wf(),
        ensures
            r == self@.flags.contains(name@),
    {
        let wanted = String::from_str(name);
        let mut i: usize = 0;
        while i < self.flags.len()
            invariant
                self.wf(),
                wanted@ == name@,
                i <= self.flags.len(),
                forall|k: int| 0 <= k < i ==> self@.flags[k] != wanted@,
            decreases self.flags.len() - i,
        {
            if self.flags[i] == wanted {
                assert(self@.flags[i as int] == self.flags@[i as int]@);
                assert(self@.flags.contains(name@));
                return true;
            }
            i = i + 1;
        }
        false
    }

    /// The usage line, e.g. `hello-world <one> [two] [-v] `.
    pub fn to_string(&self) -> (r: String)
        requires
            self.wf(),
        ensures
            r@ == self@.usage_line(),
    {
        let ghost model = self@;
        let ghost field_parts = model.fields.map_values(|f: FieldModel| field_usage(f));
        let ghost flag_parts = model.possible_flags.map_values(|f: Seq<char>| flag_usage(f));
        let mut out = String::new();
        match &self.program_name {
            Some(p) => {
                let base = path_final_segment(p.as_str());
                out.append(base.as_str());
                out.append(" ");
            },
            None => {},
        }
        assert(out@ =~= model.program_prefix());
        let mut i: usize = 0;
        while i < self.fields.len()
            invariant
                model == self@,
                field_parts == model.fields.map_values(|f: FieldModel| field_usage(f)),
                i <= self.fields@.len(),
                out@ == model.program_prefix() + concat_all(field_parts.subrange(0, i as int)),
            decreases self.fields@.len() - i,
        {
            let ghost before = out@;
            let f = &self.fields[i];
            if f.required {
                out.append("<");
                out.append(f.name.as_str());
                out.append("> ");
            } else {
                out.append("[");
                out.append(f.name.as_str());
                out.append("] ");
            }
            proof {
                let pre = field_parts.subrange(0, i as int + 1);
                assert(pre.drop_last() =~= field_parts.subrange(0, i as int));
                assert(pre.last() == field_usage(model.fields[i as int]));
                assert(out@ =~= before + field_usage(model.fields[i as int]));
            }
            i = i + 1;
        }
        assert(field_parts.subrange(0, i as int) =~= field_parts);
        let ghost head = out@;
        let mut j: usize = 0;
        while j < self.possible_flags.len()
            invariant
                model == self@,
                flag_parts == model.possible_flags.map_values(|f: Seq<char>| flag_usage(f)),
                j <= self.possible_flags@.len(),
                out@ == head + concat_all(flag_parts.subrange(0, j as int)),
            decreases self.possible_flags@.len() - j,
        {
            let ghost before = out@;
            out.append("[");
            out.append(self.possible_flags[j].as_str());
            out.append("] ");
            proof {
                let pre = flag_parts.subrange(0, j as int + 1);
                assert(pre.drop_last() =~= flag_parts.subrange(0, j as int));
                assert(pre.last() == flag_usage(model.possible_flags[j as int]));
                assert(out@ =~= before + flag_usage(model.possible_flags[j as int]));
            }
            j = j + 1;
        }
        assert(flag_parts.subrange(0, j as int) =~= flag_parts);
        assert(out@ =~= model.usage_line());
        out
    }
    /// The debug text, e.g. `Args { required: "<one>", flag: "-v" }`.
    pub fn to_debug_string(&self) -> (r: String)
        requires
            self.wf(),
        ensures
            r@ == self@.debug_text(),
    {
        let ghost model = self@;
        let ghost field_parts = model.fields.map_values(|f: FieldModel| field_entry(f));
        let ghost flag_parts = model.possible_flags.map_values(|f: Seq<char>| flag_entry(f));
        let mut entries: Vec<String> = Vec::new();
        match &self.program_name {
            Some(p) => {
                let base = path_final_segment(p.as_str());
                let quoted = debug_quoted(base.as_str());
                let mut e = String::from_str("program_name: ");
                e.append(quoted.as_str());
                entries.push(e);
            },
            None => {},
        }
        assert(texts(entries@) =~= model.program_entries());
        let ghost head = texts(entries@);
        let mut i: usize = 0;
        while i < self.fields.len()
            invariant
                model == self@,
                field_parts == model.fields.map_values(|f: FieldModel| field_entry(f)),
                i <= self.fields@.len(),
                texts(entries@) == head + field_parts.subrange(0, i as int),
            decreases self.fields@.len() - i,
        {
            let ghost before = texts(entries@);
            let f = &self.fields[i];
            let e = if f.required {
                let mut shown = String::from_str("<");
                shown.append(f.name.as_str());
                shown.append(">");
                let quoted = debug_quoted(shown.as_str());
                let mut e = String::from_str("required: ");
                e.append(quoted.as_str());
                e
            } else {
                let mut shown = String::from_str("[");
                shown.append(f.name.as_str());
                shown.append("]");
                let quoted = debug_quoted(shown.as_str());
                let mut e = String::from_str("optional: ");
                e.append(quoted.as_str());
                e
            };
            assert(e@ == field_entry(model.fields[i as int]));
            entries.push(e);
            assert(texts(entries@) =~= before.push(field_parts[i as int]));
            assert(field_parts.subrange(0, i as int + 1) =~= field_parts.subrange(0, i as int).push(
                field_parts[i as int],
            ));
            i = i + 1;
        }
        assert(field_parts.subrange(0, i as int) =~= field_parts);
        let ghost middle = texts(entries@);
        let mut j: usize = 0;
        while j < self.possible_flags.len()
            invariant
                model == self@,
                flag_parts == model.possible_flags.map_values(|f: Seq<char>| flag_entry(f)),
                j <= self.possible_flags@.len(),
                texts(entries@) == middle + flag_parts.subrange(0, j as int),
            decreases self.possible_flags@.len() - j,
        {
            let ghost before = texts(entries@);
            let quoted = debug_quoted(self.possible_flags[j].as_str());
            let mut e = String::from_str("flag: ");
            e.append(quoted.as_str());
            entries.push(e);
            assert(texts(entries@) =~= before.push(flag_parts[j as int]));
            assert(flag_parts.subrange(0, j as int + 1) =~= flag_parts.subrange(0, j as int).push(
                flag_parts[j as int],
            ));
            j = j + 1;
        }
        assert(flag_parts.subrange(0, j as int) =~= flag_parts);
        assert(texts(entries@) =~= model.program_entries() + field_parts + flag_parts);
        struct_debug_text("Args", &entries)
    }
}

// `from` builds a fresh value that no spec expression can name: the contract
// stands on `from_strs` and `from_strings`, which these delegate to.
impl From<Vec<&str>> for Args {
    fn from(tokens: Vec<&str>) -> Args {
        Args::from_strs(tokens)
    }
}

impl vstd::std_specs::convert::FromSpecImpl<Vec<&str>> for Args {
    open spec fn obeys_from_spec() -> bool {
        false
    }

    open spec fn from_spec(v: Vec<&str>) -> Args {
        arbitrary()
    }
}

impl From<Vec<String>> for Args {
    fn from(tokens: Vec<String>) -> Args {
        Args::from_strings(tokens)
    }
}

impl vstd::std_specs::convert::FromSpecImpl<Vec<String>> for Args {
    open spec fn obeys_from_spec() -> bool {
        false
    }

    open spec fn from_spec(v: Vec<String>) -> Args {
        arbitrary()
    }
}


/// One field on the usage line: `<name> ` when required, `[name] ` when optional.
pub open spec fn field_usage(f: FieldModel) -> Seq<char> {
    if f.required {
        "<"@ + f.name + "> "@
    } else {
        "["@ + f.name + "] "@
    }
}

/// One declared flag on the usage line: `[flag] `.
pub open spec fn flag_usage(f: Seq<char>) -> Seq<char> {
    "["@ + f + "] "@
}

/// One field in the debug text: `required: "<name>"` or `optional: "[name]"`.
pub open spec fn field_entry(f: FieldModel) -> Seq<char> {
    if f.required {
        "required: "@ + debug_quote_of("<"@ + f.name + ">"@)
    } else {
        "optional: "@ + debug_quote_of("["@ + f.name + "]"@)
    }
}

/// One declared flag in the debug text: `flag: "name"`.
pub open spec fn flag_entry(f: Seq<char>) -> Seq<char> {
    "flag: "@ + debug_quote_of(f)
}

impl ArgsModel {
    /// The program name reduced to its final path segment, followed by a
    /// space; nothing when no name is set.
    pub open spec fn program_prefix(self) -> Seq<char> {
        match self.program_name {
            Some(p) => final_segment(p) + " "@,
            None => Seq::empty(),
        }
    }

    /// The usage line: program name, then the fields in declaration order,
    /// then the declared flags, each followed by a space.
    pub open spec fn usage_line(self) -> Seq<char> {
        self.program_prefix() + concat_all(self.fields.map_values(|f: FieldModel| field_usage(f)))
            + concat_all(self.possible_flags.map_values(|f: Seq<char>| flag_usage(f)))
    }

    pub open spec fn program_entries(self) -> Seq<Seq<char>> {
        match self.program_name {
            Some(p) => seq!["program_name: "@ + debug_quote_of(final_segment(p))],
            None => Seq::empty(),
        }
    }

    /// The debug text: `Args { .. }` with the program name, the fields and the
    /// declared flags, or `Args` alone when there are none.
    pub open spec fn debug_text(self) -> Seq<char> {
        struct_text(
            "Args"@,
            self.program_entries() + self.fields.map_values(|f: FieldModel| field_entry(f))
                + self.possible_flags.map_values(|f: Seq<char>| flag_entry(f)),
        )
    }
}

/// Every token is classified by its first character alone: a flag token is
/// among the flags and never among the positional candidates, and any other
/// token is among the positional candidates and never among the flags.
pub proof fn lemma_tokens_classified(tokens: Seq<Seq<char>>, t: Seq<char>)
    requires
        tokens.contains(t),
    ensures
        is_flag(t) ==> ArgsModel::parsed(tokens).flags.contains(t) && !ArgsModel::parsed(
            tokens,
        ).positionals.contains(t),
        !is_flag(t) ==> ArgsModel::parsed(tokens).positionals.contains(t)
            && !ArgsModel::parsed(tokens).flags.contains(t),
{
    broadcast use Seq::lemma_filter_contains, Seq::lemma_filter_pred;

    let m = ArgsModel::parsed(tokens);
    let i = choose|i: int| 0 <= i < tokens.len() && tokens[i] == t;
    if is_flag(t) {
        assert(tokens.filter(flag_token()).contains(tokens[i]));
        if m.positionals.contains(t) {
            let k = choose|k: int| 0 <= k < m.positionals.len() && m.positionals[k] == t;
            assert(positional_token()(m.positionals[k]));
        }
    } else {
        assert(tokens.filter(positional_token()).contains(tokens[i]));
        if m.flags.contains(t) {
            let k = choose|k: int| 0 <= k < m.flags.len() && m.flags[k] == t;
            assert(flag_token()(m.flags[k]));
        }
    }
}

/// A field never takes a flag token as its value.
pub proof fn lemma_values_not_flags(m: ArgsModel, name: Seq<char>, v: Seq<char>)
    requires
        m.valid(),
        m.value_of(name) == Some(v),
    ensures
        !is_flag(v),
{
    let i = choose|i: int| 0 <= i < m.fields.len() && m.fields[i].name == name;
    assert(m.fields[i].value == Some(v));
    assert(i < m.positionals.len() && m.positionals[i] == v);
}

/// A flag is present exactly when it is one of the input tokens and reads as
/// a flag; declaring fields or flags does not change that.
pub proof fn lemma_flag_presence(tokens: Seq<Seq<char>>, name: Seq<char>)
    ensures
        ArgsModel::parsed(tokens).flags.contains(name) <==> (tokens.contains(name) && is_flag(
            name,
        )),
        forall|m: ArgsModel, n: Seq<char>, required: bool| #[trigger]
            m.declare(n, required).flags == m.flags,
        forall|m: ArgsModel, f: Seq<char>|
            (ArgsModel { possible_flags: #[trigger] m.possible_flags.push(f), ..m }).flags
                == m.flags,
{
    broadcast use Seq::lemma_filter_contains, Seq::lemma_filter_pred;

    let m = ArgsModel::parsed(tokens);
    if tokens.contains(name) {
        lemma_tokens_classified(tokens, name);
    }
    if m.flags.contains(name) {
        let k = choose|k: int| 0 <= k < m.flags.len() && m.flags[k] == name;
        assert(flag_token()(m.flags[k]));
        Seq::lemma_filter_contains_rev(tokens, flag_token(), name);
    }
}

/// Queries answer from the state alone: asking again, or asking a state with
/// the same model, gives the same value and the same flag presence.
pub proof fn lemma_queries_repeatable(a: &Args, b: &Args, name: Seq<char>)
    requires
        a@ == b@,
    ensures
        a@.value_of(name) == b@.value_of(name),
        a@.flags.contains(name) == b@.flags.contains(name),
{
}

} // verus!
