//! Properties of the tokenizer and the binder, proved over their specifications.
use vstd::prelude::*;
use crate::search::{first_index, lemma_first_index_at, lemma_first_index_some};
use crate::schema::{Application, Argument, Options, first_keyed, keyed_by};
use crate::raw::{divide, head_word, tail_words};
use crate::pattern::{Shape, classify};
use crate::text::{flag_names, dedup_chars};
use crate::tokenize::{
    Scan, Unit, step, scan, start, close, normalized, user_tokens, undeclared, lemma_dedup_chars_nonempty,
};
use crate::cli::{Cli, local_options, global_options, resolve, command_index, command_named, cmd_view};

verus! {

/// Every flag in the token is declared by the schema: the name of a long
/// flag, with or without an inline value, and each flag of a short cluster.
pub open spec fn declared_token(app: Application, tok: Seq<char>) -> bool {
    match classify(tok) {
        Shape::Stmt(name, _) => app.has_key(name),
        Shape::Long(name) => app.has_key(name),
        Shape::Short(letters) => forall|i: int|
            0 <= i < flag_names(letters).len() ==> app.has_key(#[trigger] flag_names(letters)[i]),
        _ => true,
    }
}

/// Every command has a non-empty name.
pub open spec fn named_commands(app: Application) -> bool {
    forall|c: int| 0 <= c < app.cmds@.len() ==> (#[trigger] app.cmds@[c]).name@.len() > 0
}

/// Some instance has been started.
pub open spec fn started(st: Scan) -> bool {
    st.done.len() > 0 || st.head.0.len() > 0 || st.head.1.len() > 0
}

proof fn lemma_step(app: Application, st: Scan, tok: Seq<char>)
    ensures
        step(app, st, tok) is Ok <==> declared_token(app, tok),
        named_commands(app) && step(app, st, tok) is Ok ==> started(step(app, st, tok)->Ok_0),
{
    match classify(tok) {
        Shape::Short(letters) => {
            let fl = flag_names(letters);
            if first_index(fl, undeclared(app)) is Some {
                lemma_first_index_some(fl, undeclared(app));
            } else {
                if exists|i: int| 0 <= i < fl.len() && !app.has_key(#[trigger] fl[i]) {
                    let i = choose|i: int| 0 <= i < fl.len() && !app.has_key(#[trigger] fl[i]);
                    lemma_first_index_exists(fl, undeclared(app), i);
                }
                assert(letters.len() > 0);
                lemma_dedup_chars_nonempty(letters);
                assert(step(app, st, tok)->Ok_0.head.0 == fl.last());
                assert(fl.last() == seq![dedup_chars(letters).last()]);
            }
        },
        Shape::Long(name) => {},
        Shape::Word => {
            if named_commands(app) && app.has_command(tok) && !st.seen_command {
                let c = choose|c: int| 0 <= c < app.cmds@.len() && #[trigger] app.cmds@[c].name@ == tok;
                assert(app.cmds@[c].name@.len() > 0);
            }
        },
        _ => {},
    }
}

proof fn lemma_first_index_exists<A>(s: Seq<A>, p: spec_fn(A) -> bool, i: int)
    requires
        0 <= i < s.len(),
        p(s[i]),
    ensures
        first_index(s, p) is Some,
    decreases i,
{
    if exists|j: int| 0 <= j < i && #[trigger] p(s[j]) {
        let j = choose|j: int| 0 <= j < i && #[trigger] p(s[j]);
        lemma_first_index_exists(s, p, j);
    } else {
        lemma_first_index_at(s, p, i);
    }
}

proof fn lemma_scan(app: Application, toks: Seq<Seq<char>>)
    ensures
        scan(app, toks) is Ok <==> forall|k: int| 0 <= k < toks.len() ==> declared_token(app, #[trigger] toks[k]),
        named_commands(app) && scan(app, toks) is Ok && toks.len() > 0 ==> started(scan(app, toks)->Ok_0),
    decreases toks.len(),
{
    if toks.len() > 0 {
        let init = toks.drop_last();
        lemma_scan(app, init);
        if scan(app, init) is Ok {
            lemma_step(app, scan(app, init)->Ok_0, toks.last());
        }
        assert forall|k: int| 0 <= k < init.len() implies init[k] == toks[k] by {}
        if !(forall|k: int| 0 <= k < init.len() ==> declared_token(app, #[trigger] init[k])) {
            let k = choose|k: int| 0 <= k < init.len() && !declared_token(app, #[trigger] init[k]);
            assert(!declared_token(app, toks[k]));
        }
    }
}

/// When every command has a name and every flag among the words after the
/// program name is declared, parsing succeeds and gives at least one instance,
/// so a result.
pub proof fn lemma_declared_flags_parse(app: Application, args: Seq<Seq<char>>)
    requires
        args.len() >= 2,
        named_commands(app),
        forall|k: int| 1 <= k < args.len() ==> declared_token(app, #[trigger] args[k]),
    ensures
        normalized(app, args) is Ok,
        normalized(app, args)->Ok_0.len() > 0,
{
    let toks = user_tokens(args);
    assert forall|k: int| 0 <= k < toks.len() implies declared_token(app, #[trigger] toks[k]) by {
        assert(toks[k] == args[k + 1]);
    }
    lemma_scan(app, toks);
}

/// A flag among the words after the program name that the schema does not
/// declare makes parsing fail.
pub proof fn lemma_undeclared_flag_fails(app: Application, args: Seq<Seq<char>>, k: int)
    requires
        1 <= k < args.len(),
        !declared_token(app, args[k]),
    ensures
        normalized(app, args) is Err,
{
    let toks = user_tokens(args);
    assert(toks[k - 1] == args[k]);
    lemma_scan(app, toks);
}

/// With nothing after the program name there are no instances, so no result.
pub proof fn lemma_program_name_alone(app: Application, args: Seq<Seq<char>>)
    requires
        args.len() <= 1,
    ensures
        normalized(app, args) == Ok::<Seq<Unit>, (Seq<char>, bool)>(Seq::empty()),
{
    assert(user_tokens(args) =~= Seq::<Seq<char>>::empty());
    assert(close(start().done, start().head) =~= Seq::<Unit>::empty());
}

/// No option of `opts` but the one at `i` is keyed by that option's short or
/// long key.
pub open spec fn keys_unique(opts: Seq<Options>, i: int) -> bool {
    forall|j: int|
        0 <= j < opts.len() && j != i ==> !(#[trigger] opts[j]).keyed(opts[i].long@) && !opts[j].keyed(
            opts[i].short@,
        )
}

proof fn lemma_first_keyed_is(opts: Seq<Options>, k: Seq<char>)
    requires
        first_keyed(opts, k) is Some,
    ensures
        exists|j: int| 0 <= j < opts.len() && first_keyed(opts, k) == Some(opts[j]) && (#[trigger] opts[j]).keyed(
            k,
        ),
{
    lemma_first_index_some(opts, keyed_by(k));
    let j = first_index(opts, keyed_by(k))->0;
    assert(opts[j].keyed(k));
}

/// A global option's value reads the same under its short and its long key,
/// when no other global option shares one of its keys.
pub proof fn lemma_global_short_long(
    ins: Seq<Unit>,
    opts: Seq<Options>,
    local: Option<Map<Seq<char>, Seq<Seq<char>>>>,
    i: int,
)
    requires
        0 <= i < opts.len(),
        keys_unique(opts, i),
    ensures
        global_options(ins, opts, local).contains_key(opts[i].long@) == global_options(
            ins,
            opts,
            local,
        ).contains_key(opts[i].short@),
        global_options(ins, opts, local).contains_key(opts[i].long@) ==> global_options(ins, opts, local)[opts[i].long@]
            == global_options(ins, opts, local)[opts[i].short@],
    decreases ins.len(),
{
    if ins.len() > 0 {
        lemma_global_short_long(ins.drop_last(), opts, local, i);
        let k = ins.last().0;
        if first_keyed(opts, k) is Some {
            lemma_first_keyed_is(opts, k);
        }
    }
}

/// With no command resolved, a global option reads the same through the
/// result under its short and its long key.
pub proof fn lemma_cli_short_long(cli: Cli, ins: Seq<Unit>, app: Application, i: int)
    requires
        0 <= i < app.opts@.len(),
        keys_unique(app.opts@, i),
        cli.cmd is None,
        cli.global_raws@ == global_options(ins, app.opts@, None),
    ensures
        cli.lookup(app.opts@[i].short@) == cli.lookup(app.opts@[i].long@),
        cli.given(app.opts@[i].short@) == cli.given(app.opts@[i].long@),
{
    lemma_global_short_long(ins, app.opts@, None, i);
}

/// Once an instance keyed by a command's option `o` has been seen, the
/// command's values hold `o`'s long key.
proof fn lemma_local_holds(ins: Seq<Unit>, opts: Seq<Options>, o: Options, k: int)
    requires
        0 <= k < ins.len(),
        first_keyed(opts, ins[k].0) == Some(o),
    ensures
        local_options(ins, opts).contains_key(o.long@),
    decreases ins.len(),
{
    if k < ins.len() - 1 {
        lemma_local_holds(ins.drop_last(), opts, o, k);
    }
}

/// An option that the resolved command declares, given after the command's
/// name, is read from the command's own values, before any global value
/// under the same key.
pub proof fn lemma_local_first(cli: Cli, ins: Seq<Unit>, app: Application, k: int, o: Options)
    requires
        cmd_view(cli.cmd) == resolve(ins, app.cmds@),
        command_index(ins, app.cmds@) is Some,
        command_index(ins, app.cmds@)->0 < k < ins.len(),
        first_keyed(
            app.cmds@[first_index(app.cmds@, command_named(ins[command_index(ins, app.cmds@)->0].0))->0].opts@,
            ins[k].0,
        ) == Some(o),
    ensures
        cli.cmd is Some,
        cli.cmd->0.opt_raws@.contains_key(o.long@),
        cli.lookup(o.long@) == cli.cmd->0.opt_raws@[o.long@],
{
    let i = command_index(ins, app.cmds@)->0;
    let c = app.cmds@[first_index(app.cmds@, command_named(ins[i].0))->0];
    let rest = ins.skip(i + 1);
    assert(rest[k - i - 1] == ins[k]);
    lemma_local_holds(rest, c.opts@, o, k - i - 1);
}

/// Words bound to `n` single slots followed by one multiple slot: each single
/// slot takes its own word, or none past the end of the words, and the
/// multiple slot takes every word after the first `n`.
pub proof fn lemma_trailing_multiple(words: Seq<Seq<char>>, args: Seq<Argument>, n: int)
    requires
        0 <= n,
        args.len() == n + 1,
        forall|j: int| 0 <= j < n ==> !(#[trigger] args[j]).ty.is_multiple(),
        args[n].ty.is_multiple(),
    ensures
        divide(words, args).len() == n + 1,
        forall|j: int| 0 <= j < n && j < words.len() ==> #[trigger] divide(words, args)[j] == seq![words[j]],
        forall|j: int| 0 <= j < n && j >= words.len() ==> #[trigger] divide(words, args)[j] == Seq::<
            Seq<char>,
        >::empty(),
        words.len() >= n ==> divide(words, args)[n] == words.skip(n),
        words.len() >= n ==> divide(words, args)[n].len() == words.len() - n,
        words.len() < n ==> divide(words, args)[n].len() == 0,
    decreases n,
{
    if n == 0 {
        assert(words.skip(0) =~= words);
        assert(args.drop_first().len() == 0);
        assert(divide(Seq::empty(), args.drop_first()) =~= Seq::<Seq<Seq<char>>>::empty());
    } else {
        let rest = args.drop_first();
        assert forall|j: int| 0 <= j < n - 1 implies !(#[trigger] rest[j]).ty.is_multiple() by {
            assert(rest[j] == args[j + 1]);
        }
        lemma_trailing_multiple(tail_words(words), rest, n - 1);
        let d = divide(words, args);
        let t = tail_words(words);
        assert(d == seq![head_word(words)] + divide(t, rest));
        assert forall|j: int| 0 <= j < n && j < words.len() implies #[trigger] d[j] == seq![words[j]] by {
            if j == 0 {
                assert(head_word(words) =~= seq![words[0]]);
            } else {
                assert(t[j - 1] == words[j]);
            }
        }
        if words.len() >= n {
            assert(t.skip(n - 1) =~= words.skip(n));
        }
    }
}

/// With no words, every slot, single or multiple, is bound to no words.
pub proof fn lemma_no_words(args: Seq<Argument>)
    ensures
        divide(Seq::empty(), args).len() == args.len(),
        forall|j: int| 0 <= j < args.len() ==> (#[trigger] divide(Seq::empty(), args)[j]).len() == 0,
    decreases args.len(),
{
    if args.len() > 0 {
        lemma_no_words(args.drop_first());
        let d = divide(Seq::empty(), args);
        let e = Seq::<Seq<char>>::empty();
        assert(head_word(e) == e);
        assert(tail_words(e) == e);
        assert(d == seq![e] + divide(e, args.drop_first()));
        assert forall|j: int| 0 <= j < args.len() implies (#[trigger] d[j]).len() == 0 by {
            if j > 0 {
                assert(d[j] == divide(e, args.drop_first())[j - 1]);
            }
        }
    }
}

} // verus!
