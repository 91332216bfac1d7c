//! The binder and the parse result: the resolved sub-command, the global
//! option values and the top-level positional values.
use vstd::prelude::*;
use vstd::string::*;
use crate::search::{first_index, lemma_first_index_at, lemma_first_index_none};
use crate::schema::{Application, Command, Options, first_keyed, find_option};
use crate::instance::{Instance, instances_of};
use crate::raw::{Raw, raws_of, divide, divide_option};
use crate::rawmap::RawMap;
use crate::tokenize::{Unit, ParseError, normalize, normalized};
use crate::raw::words_of;
use crate::text::str_eq;
use vstd::std_specs::convert::FromSpec;

verus! {

/// `m` with `k` bound to `v`, unless `k` is bound already.
pub open spec fn insert_absent(m: Map<Seq<char>, Seq<Seq<char>>>, k: Seq<char>, v: Seq<Seq<char>>) -> Map<
    Seq<char>,
    Seq<Seq<char>>,
> {
    if m.contains_key(k) { m } else { m.insert(k, v) }
}

/// The predicate "some command is named like the unit".
pub open spec fn names_command(cmds: Seq<Command>) -> spec_fn(Unit) -> bool {
    |u: Unit| exists|c: int| 0 <= c < cmds.len() && #[trigger] cmds[c].name@ == u.0
}

/// The predicate "the command is named `n`".
pub open spec fn command_named(n: Seq<char>) -> spec_fn(Command) -> bool {
    |c: Command| c.name@ == n
}

/// The position of the first instance that names a command.
pub open spec fn command_index(ins: Seq<Unit>, cmds: Seq<Command>) -> Option<int> {
    first_index(ins, names_command(cmds))
}

/// The values of a command's own options among the instances: each instance
/// keyed by an option binds the option's short and long key, and the first
/// binding of a key stays.
pub open spec fn local_options(ins: Seq<Unit>, opts: Seq<Options>) -> Map<Seq<char>, Seq<Seq<char>>>
    decreases ins.len(),
{
    if ins.len() == 0 {
        Map::empty()
    } else {
        let m = local_options(ins.drop_last(), opts);
        match first_keyed(opts, ins.last().0) {
            Some(o) => {
                let raw = divide_option(ins.last().1, o.arg);
                insert_absent(insert_absent(m, o.long@, raw), o.short@, raw)
            },
            None => m,
        }
    }
}

/// The values of the global options among the instances: each instance keyed
/// by an option binds the option's short and long key, a later binding
/// replacing an earlier one, unless the command's own values hold the
/// option's long key.
pub open spec fn global_options(
    ins: Seq<Unit>,
    opts: Seq<Options>,
    local: Option<Map<Seq<char>, Seq<Seq<char>>>>,
) -> Map<Seq<char>, Seq<Seq<char>>>
    decreases ins.len(),
{
    if ins.len() == 0 {
        Map::empty()
    } else {
        let m = global_options(ins.drop_last(), opts, local);
        match first_keyed(opts, ins.last().0) {
            Some(o) => if local is Some && local->0.contains_key(o.long@) {
                m
            } else {
                let raw = divide_option(ins.last().1, o.arg);
                m.insert(o.long@, raw).insert(o.short@, raw)
            },
            None => m,
        }
    }
}

/// The resolved sub-command: its name, the raws of its slots, and the values
/// of its own options.
pub type CmdView = (Seq<char>, Seq<Seq<Seq<char>>>, Map<Seq<char>, Seq<Seq<char>>>);

/// The sub-command that the instances invoke, if any.
pub open spec fn resolve(ins: Seq<Unit>, cmds: Seq<Command>) -> Option<CmdView> {
    match command_index(ins, cmds) {
        None => None,
        Some(i) => {
            let c = cmds[first_index(cmds, command_named(ins[i].0))->0];
            Some((c.name@, divide(ins[i].1, c.args@), local_options(ins.skip(i + 1), c.opts@)))
        },
    }
}

/// The values of the command's own options, when a command was resolved.
pub open spec fn local_of(c: Option<CmdView>) -> Option<Map<Seq<char>, Seq<Seq<char>>>> {
    match c {
        Some(v) => Some(v.2),
        None => None,
    }
}

/// The top-level positional values: bound only when no command was resolved
/// and the first instance is a group of bare words.
pub open spec fn direct_values(ins: Seq<Unit>, app: Application) -> Seq<Seq<Seq<char>>> {
    if resolve(ins, app.cmds@) is None && ins.len() > 0 && ins[0].0.len() == 0 && ins[0].1.len() > 0 {
        divide(ins[0].1, app.direct_args@)
    } else {
        Seq::empty()
    }
}

/// The sub-command that the user invoked, with its bound values.
#[derive(Debug)]
pub struct Cmd {
    pub name: String,
    pub raws: Vec<Raw>,
    pub opt_raws: RawMap,
}

impl View for Cmd {
    type V = CmdView;

    open spec fn view(&self) -> CmdView {
        (self.name@, raws_of(self.raws@), self.opt_raws@)
    }
}

pub open spec fn cmd_view(c: Option<Cmd>) -> Option<CmdView> {
    match c {
        Some(c) => Some(c@),
        None => None,
    }
}

/// The position of the first command named `name`.
fn find_command(cmds: &Vec<Command>, name: &str) -> (r: Option<usize>)
    ensures
        r is Some <==> names_command(cmds@)((name@, Seq::empty())),
        r is Some ==> r->0 < cmds@.len() && first_index(cmds@, command_named(name@)) == Some(r->0 as int),
{
    let mut i: usize = 0;
    while i < cmds.len()
        invariant
            i <= cmds@.len(),
            forall|j: int| 0 <= j < i ==> #[trigger] cmds@[j].name@ != name@,
        decreases cmds.len() - i,
    {
        if str_eq(cmds[i].name.as_str(), name) {
            proof {
                lemma_first_index_at(cmds@, command_named(name@), i as int);
            }
            return Some(i);
        }
        i = i + 1;
    }
    None
}

impl Cmd {
    fn new(name: String) -> (r: Cmd)
        ensures
            r.name == name,
            r.raws@.len() == 0,
            r.opt_raws@ == Map::<Seq<char>, Seq<Seq<char>>>::empty(),
    {
        Cmd { name, raws: Vec::new(), opt_raws: RawMap::new() }
    }

    /// Binds `key` unless it is bound already.
    fn insert(&mut self, key: String, arg: Raw)
        ensures
            final(self).name == old(self).name,
            final(self).raws == old(self).raws,
            final(self).opt_raws@ == insert_absent(old(self).opt_raws@, key@, arg@),
    {
        if !self.opt_raws.contains_key(key.as_str()) {
            self.opt_raws.insert(key, arg);
        }
    }

    /// Whether the command's own options bind `idx`.
    pub fn has(&self, idx: &str) -> (r: bool)
        ensures
            r == self.opt_raws@.contains_key(idx@),
    {
        self.opt_raws.contains_key(idx)
    }

    /// The position of the first instance that names a command.
    fn get_cmd_idx(instances: &Vec<Instance>, commands: &Vec<Command>) -> (r: Option<usize>)
        ensures
            r is Some <==> command_index(instances_of(instances@), commands@) is Some,
            r is Some ==> r->0 < instances@.len() && command_index(instances_of(instances@), commands@) == Some(
                r->0 as int),
    {
        let ghost ins = instances_of(instances@);
        let mut i: usize = 0;
        while i < instances.len()
            invariant
                ins == instances_of(instances@),
                i <= instances@.len(),
                forall|j: int| 0 <= j < i ==> !names_command(commands@)(ins[j]),
            decreases instances.len() - i,
        {
            if find_command(commands, instances[i].name.as_str()).is_some() {
                proof {
                    lemma_first_index_at(ins, names_command(commands@), i as int);
                }
                return Some(i);
            }
            i = i + 1;
        }
        proof {
            lemma_first_index_none(ins, names_command(commands@));
        }
        None
    }

    /// Resolves the sub-command that the instances invoke: the first instance
    /// that names a command, its words bound to the command's slots, and the
    /// values of the command's own options among the instances after it.
    pub fn from(instances: &Vec<Instance>, commands: &Vec<Command>) -> (r: Option<Cmd>)
        ensures
            cmd_view(r) == resolve(instances_of(instances@), commands@),
    {
        let ghost ins = instances_of(instances@);
        let found = Cmd::get_cmd_idx(instances, commands);
        if found.is_none() {
            return None;
        }
        let idx = found.unwrap();
        let n = instances.len();
        assert(idx < n);
        let head = &instances[idx];
        let c = find_command(commands, head.name.as_str()).unwrap();
        let sub_cmd = &commands[c];
        let mut result = Cmd::new(sub_cmd.name.clone());
        result.raws = Raw::divide_cmd(head, &sub_cmd.args);
        let ghost rest = ins.skip(idx + 1);
        let mut k: usize = idx + 1;
        assert(rest.take(0) =~= Seq::<Unit>::empty());
        while k < instances.len()
            invariant
                ins == instances_of(instances@),
                rest == ins.skip(idx + 1),
                idx < k <= instances@.len(),
                c < commands@.len(),
                sub_cmd == commands@[c as int],
                result.name@ == sub_cmd.name@,
                raws_of(result.raws@) == divide(ins[idx as int].1, sub_cmd.args@),
                result.opt_raws@ == local_options(rest.take(k - idx - 1), sub_cmd.opts@),
            decreases instances.len() - k,
        {
            let ghost t = rest.take(k - idx);
            assert(t.drop_last() =~= rest.take(k - idx - 1));
            assert(t.last() == ins[k as int]);
            let ins_k = &instances[k];
            if let Some(o) = find_option(&sub_cmd.opts, ins_k.name.as_str()) {
                let matched = &sub_cmd.opts[o];
                let raw = Raw::divide_opt(ins_k, &matched.arg);
                result.insert(matched.long.clone(), raw.duplicate());
                result.insert(matched.short.clone(), raw);
            }
            k = k + 1;
        }
        assert(rest.take(k - idx - 1) =~= rest);
        Some(result)
    }
}

/// The parse result.
#[derive(Debug)]
pub struct Cli {
    pub cmd: Option<Cmd>,
    pub global_raws: RawMap,
    pub direct_args: Vec<Raw>,
}

impl Cli {
    /// What a key reads: the command's own value first, then the global one,
    /// else no words.
    pub open spec fn lookup(self, k: Seq<char>) -> Seq<Seq<char>> {
        if self.cmd is Some && self.cmd->0.opt_raws@.contains_key(k) {
            self.cmd->0.opt_raws@[k]
        } else if self.global_raws@.contains_key(k) {
            self.global_raws@[k]
        } else {
            Seq::empty()
        }
    }

    /// Whether the user gave the option keyed by `k`.
    pub open spec fn given(self, k: Seq<char>) -> bool {
        (self.cmd is Some && self.cmd->0.opt_raws@.contains_key(k)) || self.global_raws@.contains_key(k)
    }

    /// A result with nothing in it.
    pub fn empty() -> (r: Cli)
        ensures
            r.cmd is None,
            r.global_raws@ == Map::<Seq<char>, Seq<Seq<char>>>::empty(),
            r.direct_args@.len() == 0,
    {
        Cli { cmd: None, global_raws: RawMap::new(), direct_args: Vec::new() }
    }

    /// Binds the instances to the schema: the sub-command they invoke, the
    /// values of the global options, and the top-level positional values.
    /// There is no result when there are no instances.
    pub fn from(instances: &Vec<Instance>, app: &Application) -> (r: Option<Cli>)
        ensures
            r is None <==> instances@.len() == 0,
            r is Some ==> cmd_view(r->0.cmd) == resolve(instances_of(instances@), app.cmds@),
            r is Some ==> r->0.global_raws@ == global_options(
                instances_of(instances@),
                app.opts@,
                local_of(resolve(instances_of(instances@), app.cmds@)),
            ),
            r is Some ==> raws_of(r->0.direct_args@) == direct_values(instances_of(instances@), *app),
    {
        if instances.len() == 0 {
            return None;
        }
        let ghost ins = instances_of(instances@);
        let cmd = Cmd::from(instances, &app.cmds);
        let ghost local = local_of(resolve(ins, app.cmds@));
        let mut global_raws = RawMap::new();
        let mut k: usize = 0;
        assert(ins.take(0) =~= Seq::<Unit>::empty());
        while k < instances.len()
            invariant
                ins == instances_of(instances@),
                k <= instances@.len(),
                cmd_view(cmd) == resolve(ins, app.cmds@),
                local == local_of(resolve(ins, app.cmds@)),
                global_raws@ == global_options(ins.take(k as int), app.opts@, local),
            decreases instances.len() - k,
        {
            let ghost t = ins.take(k + 1);
            assert(t.drop_last() =~= ins.take(k as int));
            assert(t.last() == ins[k as int]);
            let ins_k = &instances[k];
            if let Some(o) = find_option(&app.opts, ins_k.name.as_str()) {
                let matched = &app.opts[o];
                let shadowed = match &cmd {
                    Some(c) => c.has(matched.long.as_str()),
                    None => false,
                };
                if !shadowed {
                    let raw = Raw::divide_opt(ins_k, &matched.arg);
                    global_raws.insert(matched.long.clone(), raw.duplicate());
                    global_raws.insert(matched.short.clone(), raw);
                }
            }
            k = k + 1;
        }
        assert(ins.take(k as int) =~= ins);
        let first = &instances[0];
        let direct_args = if cmd.is_none() && first.is_empty() && first.args.len() > 0 {
            Raw::divide_cmd(first, &app.direct_args)
        } else {
            Vec::new()
        };
        assert(direct_args@.len() == 0 ==> raws_of(direct_args@) =~= Seq::<Seq<Seq<char>>>::empty());
        Some(Cli { cmd, global_raws, direct_args })
    }

    /// The value of an option: the command's own value before the global one.
    pub fn get(&self, idx: &str) -> (r: Raw)
        ensures
            r@ == self.lookup(idx@),
    {
        if let Some(cmd) = &self.cmd {
            if let Some(raw) = cmd.opt_raws.get(idx) {
                return raw;
            }
        }
        match self.global_raws.get(idx) {
            Some(raw) => raw,
            None => {
                let r = Raw::new(Vec::new());
                assert(r@ =~= Seq::<Seq<char>>::empty());
                r
            },
        }
    }

    /// The value of an option converted to `T`, or `d` when the user did not
    /// give it.
    pub fn get_or<T: From<Raw>>(&self, idx: &str, d: T) -> (r: T)
        ensures
            !self.given(idx@) ==> r == d,
            self.given(idx@) && T::obeys_from_spec() ==> exists|raw: Raw|
                raw@ == self.lookup(idx@) && r == T::from_spec(raw),
    {
        if self.has(idx) {
            let raw = self.get(idx);
            let r = T::from(raw);
            assert(raw@ == self.lookup(idx@));
            r
        } else {
            d
        }
    }

    /// The value of an option converted to `T`, or what `f` computes when the
    /// user did not give it.
    pub fn get_or_else<T: From<Raw>, F: FnOnce() -> T>(&self, idx: &str, f: F) -> (r: T)
        requires
            !self.given(idx@) ==> f.requires(()),
        ensures
            !self.given(idx@) ==> f.ensures((), r),
            self.given(idx@) && T::obeys_from_spec() ==> exists|raw: Raw|
                raw@ == self.lookup(idx@) && r == T::from_spec(raw),
    {
        if self.has(idx) {
            let raw = self.get(idx);
            let r = T::from(raw);
            assert(raw@ == self.lookup(idx@));
            r
        } else {
            f()
        }
    }

    /// Whether the user gave the option keyed by `idx`.
    pub fn has(&self, idx: &str) -> (r: bool)
        ensures
            r == self.given(idx@),
    {
        (self.cmd.is_some() && self.cmd.as_ref().unwrap().has(idx)) || self.global_raws.contains_key(idx)
    }

    /// The raws of the resolved command's slots, or none.
    pub fn get_raws(&self) -> (r: Vec<Raw>)
        ensures
            self.cmd is Some ==> raws_of(r@) == raws_of(self.cmd->0.raws@),
            self.cmd is None ==> r@.len() == 0,
    {
        match &self.cmd {
            Some(cmd) => {
                let mut r: Vec<Raw> = Vec::new();
                let mut i: usize = 0;
                while i < cmd.raws.len()
                    invariant
                        i <= cmd.raws@.len(),
                        raws_of(r@) == raws_of(cmd.raws@).take(i as int),
                    decreases cmd.raws.len() - i,
                {
                    let ghost r0 = r@;
                    r.push(cmd.raws[i].duplicate());
                    assert(raws_of(r@) =~= raws_of(r0).push(cmd.raws@[i as int]@));
                    assert(raws_of(cmd.raws@).take(i + 1) =~= raws_of(cmd.raws@).take(i as int).push(
                        cmd.raws@[i as int]@));
                    i = i + 1;
                }
                assert(raws_of(cmd.raws@).take(i as int) =~= raws_of(cmd.raws@));
                r
            },
            None => Vec::new(),
        }
    }

    /// The name of the resolved command, or the empty string.
    pub fn get_name(&self) -> (r: String)
        ensures
            self.cmd is Some ==> r@ == self.cmd->0.name@,
            self.cmd is None ==> r@.len() == 0,
    {
        match &self.cmd {
            Some(cmd) => cmd.name.clone(),
            None => String::new(),
        }
    }
}

/// What a parse of the instances `ins` gives: nothing when there are none,
/// else the resolved command, the global values and the positional values.
pub open spec fn bound(c: Cli, ins: Seq<Unit>, app: Application) -> bool {
    &&& ins.len() > 0
    &&& cmd_view(c.cmd) == resolve(ins, app.cmds@)
    &&& c.global_raws@ == global_options(ins, app.opts@, local_of(resolve(ins, app.cmds@)))
    &&& raws_of(c.direct_args@) == direct_values(ins, *&app)
}

/// Parses an argument vector whose first word is the program name: fails on
/// the first flag that the schema does not declare, gives no result when
/// nothing follows the program name.
pub fn parse(args: Vec<String>, app: &Application) -> (r: Result<Option<Cli>, ParseError>)
    ensures
        r is Err <==> normalized(*app, words_of(args@)) is Err,
        r is Err ==> normalized(*app, words_of(args@))->Err_0 == r->Err_0@,
        r is Ok ==> (r->Ok_0 is None <==> normalized(*app, words_of(args@))->Ok_0.len() == 0),
        r is Ok && r->Ok_0 is Some ==> bound(r->Ok_0->0, normalized(*app, words_of(args@))->Ok_0, *app),
{
    let instances = normalize(args, app)?;
    Ok(Cli::from(&instances, app))
}

} // verus!
