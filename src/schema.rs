//! The declared schema: argument slots, options, commands and the application.
use vstd::prelude::*;
use vstd::string::*;
use crate::search::{first_index, lemma_first_index_at, lemma_first_index_none};
use crate::text::str_eq;

verus! {

/// The arity of a positional slot: `<rs>`, `[os]`, `<rm...>` and `[om...]`.
#[derive(Debug, Clone, Copy, PartialEq, Eq, Structural)]
pub enum ArgumentType {
    RequiredSingle,
    OptionalSingle,
    RequiredMultiple,
    OptionalMultiple,
}

impl ArgumentType {
    pub open spec fn spec_is_multiple(self) -> bool {
        self is RequiredMultiple || self is OptionalMultiple
    }

    /// Whether the slot takes every remaining word rather than one.
    #[verifier::when_used_as_spec(spec_is_multiple)]
    pub fn is_multiple(self) -> (r: bool)
        ensures
            r == self.spec_is_multiple(),
    {
        match self {
            ArgumentType::RequiredMultiple | ArgumentType::OptionalMultiple => true,
            _ => false,
        }
    }
}

/// One positional slot, such as `<dir>`.
#[derive(Debug, Clone, PartialEq, Eq)]
pub struct Argument {
    pub name: String,
    pub ty: ArgumentType,
}

/// One flag, with its short and long key and at most one argument slot.
#[derive(Debug)]
pub struct Options {
    pub short: String,
    pub long: String,
    pub arg: Option<Argument>,
    pub desc: Option<String>,
}

/// One sub-command with its positional slots and its own options.
pub struct Command {
    pub name: String,
    pub args: Vec<Argument>,
    pub desc: Option<String>,
    pub opts: Vec<Options>,
}

/// The whole declared schema.
pub struct Application {
    pub name: String,
    pub desc: String,
    pub cmds: Vec<Command>,
    pub opts: Vec<Options>,
    pub direct_args: Vec<Argument>,
}

impl Options {
    /// `k` is the option's short or its long key.
    pub open spec fn keyed(self, k: Seq<char>) -> bool {
        self.long@ == k || self.short@ == k
    }

    pub fn is_keyed(&self, k: &str) -> (r: bool)
        ensures
            r == self.keyed(k@),
    {
        str_eq(self.long.as_str(), k) || str_eq(self.short.as_str(), k)
    }

    /// An option without an argument slot, used as a presence flag.
    pub fn flag(short: &str, long: &str, desc: &str) -> (r: Options)
        ensures
            r.short@ == short@,
            r.long@ == long@,
            r.arg is None,
            r.desc is Some && r.desc->0@ == desc@,
    {
        Options {
            short: String::from_str(short),
            long: String::from_str(long),
            arg: None,
            desc: Some(String::from_str(desc)),
        }
    }
}

/// The predicate "the option is keyed by `k`".
pub open spec fn keyed_by(k: Seq<char>) -> spec_fn(Options) -> bool {
    |o: Options| o.keyed(k)
}

/// The first option of `opts` keyed by `k`.
pub open spec fn first_keyed(opts: Seq<Options>, k: Seq<char>) -> Option<Options> {
    match first_index(opts, keyed_by(k)) {
        Some(i) => Some(opts[i]),
        None => None,
    }
}

/// Some option of `opts` is keyed by `k`.
pub open spec fn declares(opts: Seq<Options>, k: Seq<char>) -> bool {
    exists|i: int| 0 <= i < opts.len() && #[trigger] opts[i].keyed(k)
}

/// The index of the first option of `opts` keyed by `k`.
pub fn find_option(opts: &Vec<Options>, k: &str) -> (r: Option<usize>)
    ensures
        r is Some <==> first_keyed(opts@, k@) is Some,
        r is Some ==> r->0 < opts@.len() && first_keyed(opts@, k@) == Some(opts@[r->0 as int]),
        r is None <==> !declares(opts@, k@),
{
    let mut i: usize = 0;
    while i < opts.len()
        invariant
            i <= opts@.len(),
            forall|j: int| 0 <= j < i ==> !opts@[j].keyed(k@),
        decreases opts.len() - i,
    {
        if opts[i].is_keyed(k) {
            proof {
                lemma_first_index_at(opts@, keyed_by(k@), i as int);
            }
            return Some(i);
        }
        i = i + 1;
    }
    proof {
        lemma_first_index_none(opts@, keyed_by(k@));
    }
    None
}

impl Command {
    /// Appends the help option `-h, --help` to the command's options.
    pub fn derive(&mut self)
        ensures
            final(self).name == old(self).name,
            final(self).args == old(self).args,
            final(self).desc == old(self).desc,
            final(self).opts@.len() == old(self).opts@.len() + 1,
            final(self).opts@.take(old(self).opts@.len() as int) == old(self).opts@,
            is_help(final(self).opts@.last()),
    {
        self.opts.push(Options::flag("h", "help", "output usage information"));
        assert(self.opts@.take(old(self).opts@.len() as int) =~= old(self).opts@);
    }
}

/// The derived help option.
pub open spec fn is_help(o: Options) -> bool {
    &&& o.short@ == "h"@
    &&& o.long@ == "help"@
    &&& o.arg is None
    &&& o.desc is Some && o.desc->0@ == "output usage information"@
}

/// The derived version option.
pub open spec fn is_version(o: Options) -> bool {
    &&& o.short@ == "V"@
    &&& o.long@ == "version"@
    &&& o.arg is None
    &&& o.desc is Some && o.desc->0@ == "output the version number"@
}

/// `c` is `b` with the help option appended.
pub open spec fn derived_command(b: Command, c: Command) -> bool {
    &&& c.name == b.name
    &&& c.args == b.args
    &&& c.desc == b.desc
    &&& c.opts@.len() == b.opts@.len() + 1
    &&& c.opts@.take(b.opts@.len() as int) == b.opts@
    &&& is_help(c.opts@.last())
}

impl Application {
    /// Some global option, or some option of some command, is keyed by `k`.
    pub open spec fn has_key(self, k: Seq<char>) -> bool {
        declares(self.opts@, k) || exists|c: int| 0 <= c < self.cmds@.len() && declares(#[trigger] self.cmds@[c].opts@, k)
    }

    /// Some command is named `w`.
    pub open spec fn has_command(self, w: Seq<char>) -> bool {
        exists|c: int| 0 <= c < self.cmds@.len() && #[trigger] self.cmds@[c].name@ == w
    }

    /// Whether `idx` is a key of a global option or of an option of any command.
    pub fn contains_key(&self, idx: &str) -> (r: bool)
        ensures
            r == self.has_key(idx@),
    {
        if find_option(&self.opts, idx).is_some() {
            return true;
        }
        let mut c: usize = 0;
        while c < self.cmds.len()
            invariant
                c <= self.cmds@.len(),
                !declares(self.opts@, idx@),
                forall|j: int| 0 <= j < c ==> !declares(#[trigger] self.cmds@[j].opts@, idx@),
            decreases self.cmds.len() - c,
        {
            if find_option(&self.cmds[c].opts, idx).is_some() {
                return true;
            }
            c = c + 1;
        }
        false
    }

    /// Whether some command is named `w`.
    pub fn is_command(&self, w: &str) -> (r: bool)
        ensures
            r == self.has_command(w@),
    {
        let mut c: usize = 0;
        while c < self.cmds.len()
            invariant
                c <= self.cmds@.len(),
                forall|j: int| 0 <= j < c ==> #[trigger] self.cmds@[j].name@ != w@,
            decreases self.cmds.len() - c,
        {
            if str_eq(self.cmds[c].name.as_str(), w) {
                return true;
            }
            c = c + 1;
        }
        false
    }

    /// Appends the help and version options to the application and the help
    /// option to every command.
    pub fn derive(&mut self)
        ensures
            final(self).name == old(self).name,
            final(self).desc == old(self).desc,
            final(self).direct_args == old(self).direct_args,
            final(self).opts@.len() == old(self).opts@.len() + 2,
            final(self).opts@.take(old(self).opts@.len() as int) == old(self).opts@,
            is_help(final(self).opts@[old(self).opts@.len() as int]),
            is_version(final(self).opts@[old(self).opts@.len() + 1int]),
            final(self).cmds@.len() == old(self).cmds@.len(),
            forall|c: int| 0 <= c < old(self).cmds@.len()
                ==> derived_command(#[trigger] old(self).cmds@[c], final(self).cmds@[c]),
    {
        self.opts.push(Options::flag("h", "help", "output usage information"));
        self.opts.push(Options::flag("V", "version", "output the version number"));
        assert(self.opts@.take(old(self).opts@.len() as int) =~= old(self).opts@);
        self.derive_cmds();
    }

    fn derive_cmds(&mut self)
        ensures
            final(self).name == old(self).name,
            final(self).desc == old(self).desc,
            final(self).direct_args == old(self).direct_args,
            final(self).opts == old(self).opts,
            final(self).cmds@.len() == old(self).cmds@.len(),
            forall|c: int| 0 <= c < old(self).cmds@.len()
                ==> derived_command(#[trigger] old(self).cmds@[c], final(self).cmds@[c]),
    {
        let mut i: usize = 0;
        while i < self.cmds.len()
            invariant
                self.name == old(self).name,
                self.desc == old(self).desc,
                self.direct_args == old(self).direct_args,
                self.opts == old(self).opts,
                self.cmds@.len() == old(self).cmds@.len(),
                i <= self.cmds@.len(),
                forall|c: int| 0 <= c < i ==> derived_command(#[trigger] old(self).cmds@[c], self.cmds@[c]),
                forall|c: int| i <= c < self.cmds@.len() ==> #[trigger] self.cmds@[c] == old(self).cmds@[c],
            decreases self.cmds.len() - i,
        {
            self.cmds[i].derive();
            i = i + 1;
        }
    }
}

} // verus!
