//! The tokenizer: one pass over the raw words that groups them into instances
//! and checks every flag against the schema.
use vstd::prelude::*;
use vstd::string::*;
use crate::search::{first_index, lemma_first_index_at, lemma_first_index_none};
use crate::schema::Application;
use crate::instance::{Instance, instances_of};
use crate::raw::words_of;
use crate::pattern::{Pattern, Shape, classify};
use crate::text::{split_values, split_flags, value_words, flag_names, dedup_chars};

verus! {

/// A name with its words.
pub type Unit = (Seq<char>, Seq<Seq<char>>);

/// The tokenizer's state: the finished instances, the one being filled, and
/// whether a command has been seen.
pub struct Scan {
    pub done: Seq<Unit>,
    pub head: Unit,
    pub seen_command: bool,
}

/// A flag that the schema does not declare: its name, and whether it was
/// written as a long flag.
pub struct ParseError {
    pub name: String,
    pub long: bool,
}

impl View for ParseError {
    type V = (Seq<char>, bool);

    open spec fn view(&self) -> (Seq<char>, bool) {
        (self.name@, self.long)
    }
}

impl ParseError {
    /// The diagnostic: `Unknown option: --name` or `Unknown option: -n`.
    pub fn message(&self) -> (r: String)
        ensures
            self.long ==> r@ == "Unknown option: --"@ + self.name@,
            !self.long ==> r@ == "Unknown option: -"@ + self.name@,
    {
        if self.long {
            String::from_str("Unknown option: --").concat(self.name.as_str())
        } else {
            String::from_str("Unknown option: -").concat(self.name.as_str())
        }
    }
}

pub open spec fn anonymous() -> Unit {
    (Seq::empty(), Seq::empty())
}

/// Finishes the instance being filled: it is kept when it has a name, or when
/// it holds words and nothing came before it.
pub open spec fn close(done: Seq<Unit>, head: Unit) -> Seq<Unit> {
    if head.0.len() > 0 || (head.1.len() > 0 && done.len() == 0) {
        done.push(head)
    } else {
        done
    }
}

/// The predicate "the schema declares no option keyed by the name".
pub open spec fn undeclared(app: Application) -> spec_fn(Seq<char>) -> bool {
    |n: Seq<char>| !app.has_key(n)
}

/// An instance with no words for each name.
pub open spec fn bare(names: Seq<Seq<char>>) -> Seq<Unit> {
    names.map_values(|n: Seq<char>| (n, Seq::<Seq<char>>::empty()))
}

/// The word is appended to the instance being filled.
pub open spec fn add_word(st: Scan, w: Seq<char>) -> Scan {
    Scan { done: st.done, head: (st.head.0, st.head.1.push(w)), seen_command: st.seen_command }
}

/// What one token does to the state, or the flag it names that the schema
/// does not declare.
pub open spec fn step(app: Application, st: Scan, tok: Seq<char>) -> Result<Scan, (Seq<char>, bool)> {
    match classify(tok) {
        Shape::Stmt(name, value) => if !app.has_key(name) {
            Err((name, true))
        } else {
            Ok(Scan {
                done: close(st.done, st.head).push((name, value_words(value))),
                head: anonymous(),
                seen_command: st.seen_command,
            })
        },
        Shape::Short(letters) => {
            let fl = flag_names(letters);
            match first_index(fl, undeclared(app)) {
                Some(i) => Err((fl[i], false)),
                None => Ok(Scan {
                    done: close(st.done, st.head) + bare(fl.drop_last()),
                    head: (fl.last(), Seq::empty()),
                    seen_command: st.seen_command,
                }),
            }
        },
        Shape::Long(name) => if !app.has_key(name) {
            Err((name, true))
        } else {
            Ok(Scan { done: close(st.done, st.head), head: (name, Seq::empty()), seen_command: st.seen_command })
        },
        Shape::Word => if app.has_command(tok) && !st.seen_command {
            Ok(Scan { done: close(st.done, st.head), head: (tok, Seq::empty()), seen_command: true })
        } else {
            Ok(add_word(st, tok))
        },
        Shape::Other => Ok(add_word(st, tok)),
    }
}

pub open spec fn start() -> Scan {
    Scan { done: Seq::empty(), head: anonymous(), seen_command: false }
}

/// The state after the tokens, or the first undeclared flag among them.
pub open spec fn scan(app: Application, toks: Seq<Seq<char>>) -> Result<Scan, (Seq<char>, bool)>
    decreases toks.len(),
{
    if toks.len() == 0 {
        Ok(start())
    } else {
        match scan(app, toks.drop_last()) {
            Ok(st) => step(app, st, toks.last()),
            Err(e) => Err(e),
        }
    }
}

/// The words after the program name.
pub open spec fn user_tokens(args: Seq<Seq<char>>) -> Seq<Seq<char>> {
    if args.len() == 0 { args } else { args.skip(1) }
}

/// The instances of an argument vector whose first word is the program name.
pub open spec fn normalized(app: Application, args: Seq<Seq<char>>) -> Result<Seq<Unit>, (Seq<char>, bool)> {
    match scan(app, user_tokens(args)) {
        Ok(st) => Ok(close(st.done, st.head)),
        Err(e) => Err(e),
    }
}

pub proof fn lemma_dedup_chars_nonempty(s: Seq<char>)
    requires
        s.len() > 0,
    ensures
        dedup_chars(s).len() > 0,
    decreases s.len(),
{
    if s.len() > 1 {
        lemma_dedup_chars_nonempty(s.drop_last());
    }
}

/// Once a prefix of the tokens has failed, the whole stream fails the same way.
pub proof fn lemma_scan_error_stays(app: Application, toks: Seq<Seq<char>>, k: int)
    requires
        0 <= k <= toks.len(),
    ensures
        scan(app, toks.take(k)) is Err ==> scan(app, toks) == scan(app, toks.take(k)),
    decreases toks.len(),
{
    if k == toks.len() {
        assert(toks.take(k) =~= toks);
    } else {
        lemma_scan_error_stays(app, toks.drop_last(), k);
        assert(toks.drop_last().take(k) =~= toks.take(k));
    }
}

/// The index of the first name that the schema does not declare.
fn first_undeclared(app: &Application, names: &Vec<String>) -> (r: Option<usize>)
    ensures
        r is Some <==> first_index(words_of(names@), undeclared(*app)) is Some,
        r is Some ==> r->0 < names@.len() && first_index(words_of(names@), undeclared(*app)) == Some(r->0 as int),
{
    let ghost fl = words_of(names@);
    let mut j: usize = 0;
    while j < names.len()
        invariant
            fl == words_of(names@),
            j <= names@.len(),
            forall|i: int| 0 <= i < j ==> app.has_key(#[trigger] fl[i]),
        decreases names.len() - j,
    {
        if !app.contains_key(names[j].as_str()) {
            proof {
                lemma_first_index_at(fl, undeclared(*app), j as int);
            }
            return Some(j);
        }
        j = j + 1;
    }
    proof {
        lemma_first_index_none(fl, undeclared(*app));
    }
    None
}

/// Appends an instance with no words for each of the first `count` names.
fn push_bare(done: &mut Vec<Instance>, names: &Vec<String>, count: usize)
    requires
        count <= names@.len(),
    ensures
        instances_of(final(done)@) == instances_of(old(done)@) + bare(words_of(names@).take(count as int)),
{
    let ghost fl = words_of(names@);
    let ghost d1 = instances_of(done@);
    let mut j: usize = 0;
    assert(d1 + bare(fl.take(0)) =~= d1);
    while j < count
        invariant
            fl == words_of(names@),
            count <= names@.len(),
            j <= count,
            instances_of(done@) == d1 + bare(fl.take(j as int)),
        decreases count - j,
    {
        let ghost d0 = done@;
        let ins = Instance::new(names[j].as_str());
        done.push(ins);
        assert(ins@ =~= (fl[j as int], Seq::<Seq<char>>::empty()));
        assert(instances_of(done@) =~= instances_of(d0).push(ins@));
        assert(bare(fl.take(j + 1)) =~= bare(fl.take(j as int)).push(ins@));
        j = j + 1;
    }
}

fn close_head(done: &mut Vec<Instance>, head: Instance)
    ensures
        instances_of(final(done)@) == close(instances_of(old(done)@), head@),
{
    if !head.is_empty() || (head.args.len() > 0 && done.len() == 0) {
        let ghost d0 = done@;
        done.push(head);
        assert(instances_of(done@) =~= instances_of(d0).push(head@));
    }
}

/// Groups the words after the program name into instances, and fails on the
/// first flag that the schema does not declare.
pub fn normalize(args: Vec<String>, app: &Application) -> (r: Result<Vec<Instance>, ParseError>)
    ensures
        r is Ok ==> normalized(*app, words_of(args@)) == Ok::<Seq<Unit>, (Seq<char>, bool)>(instances_of(r->Ok_0@)),
        r is Err ==> normalized(*app, words_of(args@)) == Err::<Seq<Unit>, (Seq<char>, bool)>(r->Err_0@),
{
    let ghost all = words_of(args@);
    let ghost toks = user_tokens(all);
    let mut done: Vec<Instance> = Vec::new();
    let mut head = Instance::empty();
    let mut seen_command = false;
    let mut k: usize = 1;
    assert(instances_of(done@) =~= Seq::<Unit>::empty());
    assert(head@ =~= anonymous());
    if args.len() > 0 {
        assert(toks.take(0) =~= Seq::<Seq<char>>::empty());
    }
    while k < args.len()
        invariant
            all == words_of(args@),
            toks == user_tokens(all),
            1 <= k,
            args@.len() > 0 ==> k <= args@.len(),
            args@.len() > 0 ==> scan(*app, toks.take(k - 1)) == Ok::<Scan, (Seq<char>, bool)>(
                Scan { done: instances_of(done@), head: head@, seen_command }),
            args@.len() == 0 ==> instances_of(done@) == Seq::<Unit>::empty() && head@ == anonymous(),
        decreases args.len() - k,
    {
        let ghost st = Scan { done: instances_of(done@), head: head@, seen_command };
        let ghost tok = all[k as int];
        assert(toks.take(k as int).drop_last() =~= toks.take(k - 1));
        assert(toks.take(k as int).last() == tok);
        proof {
            lemma_scan_error_stays(*app, toks, k as int);
        }
        let arg = &args[k];
        let reg = Pattern::match_str(arg.as_str());
        match reg {
            Pattern::Stmt(name, value) => {
                if !app.contains_key(name.as_str()) {
                    return Err(ParseError { name, long: true });
                }
                let words = split_values(value.as_str());
                close_head(&mut done, head);
                let ghost d0 = done@;
                let ins = Instance { name, args: words };
                done.push(ins);
                assert(instances_of(done@) =~= instances_of(d0).push(ins@));
                head = Instance::empty();
                assert(head@ =~= anonymous());
            },
            Pattern::Short(letters) => {
                let flags = split_flags(letters.as_str());
                let ghost fl = words_of(flags@);
                proof {
                    lemma_dedup_chars_nonempty(letters@);
                }
                if let Some(j) = first_undeclared(app, &flags) {
                    let e = ParseError { name: flags[j].clone(), long: false };
                    assert(e@ == (fl[j as int], false));
                    return Err(e);
                }
                close_head(&mut done, head);
                let last = flags.len() - 1;
                push_bare(&mut done, &flags, last);
                assert(fl.take(last as int) =~= fl.drop_last());
                head = Instance::new(flags[last].as_str());
                assert(head@ =~= (fl.last(), Seq::<Seq<char>>::empty()));
            },
            Pattern::Long(name) => {
                if !app.contains_key(name.as_str()) {
                    return Err(ParseError { name, long: true });
                }
                close_head(&mut done, head);
                head = Instance::new(name.as_str());
                assert(head@ =~= (name@, Seq::<Seq<char>>::empty()));
            },
            Pattern::Word => {
                if app.is_command(arg.as_str()) && !seen_command {
                    close_head(&mut done, head);
                    head = Instance::new(arg.as_str());
                    assert(head@ =~= (tok, Seq::<Seq<char>>::empty()));
                    seen_command = true;
                } else {
                    let ghost h0 = head.args@;
                    head.args.push(arg.clone());
                    assert(words_of(head.args@) =~= words_of(h0).push(tok));
                }
            },
            Pattern::Other => {
                let ghost h0 = head.args@;
                head.args.push(arg.clone());
                assert(words_of(head.args@) =~= words_of(h0).push(tok));
            },
        }
        k = k + 1;
    }
    if args.len() > 0 {
        assert(toks.take(k - 1) =~= toks);
    } else {
        assert(toks =~= Seq::<Seq<char>>::empty());
    }
    close_head(&mut done, head);
    Ok(done)
}

} // verus!
