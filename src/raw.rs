//! Deferred values: the words bound to one slot or one option.
use vstd::prelude::*;
use crate::schema::Argument;
use crate::instance::Instance;
use crate::number::{parse_integer, fits_i64, integer_of};

verus! {

/// The views of a vector of strings.
pub open spec fn words_of(v: Seq<String>) -> Seq<Seq<char>> {
    v.map_values(|s: String| s@)
}

/// The views of a vector of raws.
pub open spec fn raws_of(v: Seq<Raw>) -> Seq<Seq<Seq<char>>> {
    v.map_values(|r: Raw| r@)
}

/// The first word, if any, as a sequence of at most one word.
pub open spec fn head_word(words: Seq<Seq<char>>) -> Seq<Seq<char>> {
    if words.len() == 0 { words } else { words.take(1) }
}

/// The words after the first one.
pub open spec fn tail_words(words: Seq<Seq<char>>) -> Seq<Seq<char>> {
    if words.len() == 0 { words } else { words.skip(1) }
}

/// Binds `words` to the slots `args` from left to right: a single slot takes the
/// next word (or none when the words have run out), a multiple slot takes every
/// word that is left.
pub open spec fn divide(words: Seq<Seq<char>>, args: Seq<Argument>) -> Seq<Seq<Seq<char>>>
    decreases args.len(),
{
    if args.len() == 0 {
        Seq::empty()
    } else if args[0].ty.is_multiple() {
        seq![words] + divide(Seq::empty(), args.drop_first())
    } else {
        seq![head_word(words)] + divide(tail_words(words), args.drop_first())
    }
}

/// Binds `words` to an option's slot: nothing when it has none.
pub open spec fn divide_option(words: Seq<Seq<char>>, arg: Option<Argument>) -> Seq<Seq<char>> {
    match arg {
        None => Seq::empty(),
        Some(a) => if a.ty.is_multiple() { words } else { head_word(words) },
    }
}

/// An ordered sequence of words whose type is chosen when it is read.
#[derive(Debug, Clone)]
pub struct Raw(pub Vec<String>);

impl View for Raw {
    type V = Seq<Seq<char>>;

    open spec fn view(&self) -> Seq<Seq<char>> {
        words_of(self.0@)
    }
}

/// Copies the strings `v[from..to]`.
pub fn copy_words(v: &Vec<String>, from: usize, to: usize) -> (r: Vec<String>)
    requires
        from <= to <= v@.len(),
    ensures
        words_of(r@) == words_of(v@).subrange(from as int, to as int),
{
    let mut r: Vec<String> = Vec::new();
    let mut i: usize = from;
    while i < to
        invariant
            from <= i <= to <= v@.len(),
            words_of(r@) == words_of(v@).subrange(from as int, i as int),
        decreases to - i,
    {
        let ghost r0 = r@;
        r.push(v[i].clone());
        assert(words_of(r@) =~= words_of(r0).push(v@[i as int]@));
        assert(words_of(r@) =~= words_of(v@).subrange(from as int, i + 1));
        i = i + 1;
    }
    r
}

impl Raw {
    pub fn new(items: Vec<String>) -> (r: Raw)
        ensures
            r@ == words_of(items@),
    {
        Raw(items)
    }

    /// The words held.
    pub fn items(&self) -> (r: &Vec<String>)
        ensures
            words_of(r@) == self@,
    {
        &self.0
    }

    /// A copy of this raw.
    pub fn duplicate(&self) -> (r: Raw)
        ensures
            r@ == self@,
    {
        let v = copy_words(&self.0, 0, self.0.len());
        assert(words_of(self.0@).subrange(0, self.0@.len() as int) =~= self@);
        Raw(v)
    }

    /// Binds the words of `ins` to the slots `args`, one raw per slot.
    pub fn divide_cmd(ins: &Instance, args: &Vec<Argument>) -> (r: Vec<Raw>)
        ensures
            raws_of(r@) == divide(ins.words(), args@),
    {
        let ghost ws = ins.words();
        let n = ins.args.len();
        let mut r: Vec<Raw> = Vec::new();
        let mut p: usize = 0;
        let mut a: usize = 0;
        assert(ws.skip(0) =~= ws);
        assert(args@.skip(0) =~= args@);
        assert(raws_of(r@) + divide(ws, args@) =~= divide(ws, args@));
        while a < args.len()
            invariant
                ws == words_of(ins.args@),
                n == ws.len(),
                p <= n,
                a <= args@.len(),
                divide(ws, args@) == raws_of(r@) + divide(ws.skip(p as int), args@.skip(a as int)),
            decreases args.len() - a,
        {
            let ghost rest = ws.skip(p as int);
            let ghost r0 = r@;
            assert(args@.skip(a as int).drop_first() =~= args@.skip(a + 1));
            if args[a].ty.is_multiple() {
                r.push(Raw(copy_words(&ins.args, p, n)));
                assert(ws.skip(n as int) =~= Seq::<Seq<char>>::empty());
                p = n;
            } else if p < n {
                r.push(Raw(copy_words(&ins.args, p, p + 1)));
                assert(head_word(rest) =~= ws.subrange(p as int, p + 1));
                assert(tail_words(rest) =~= ws.skip(p + 1));
                p = p + 1;
            } else {
                r.push(Raw(Vec::new()));
                assert(words_of(Seq::<String>::empty()) =~= head_word(rest));
            }
            assert(raws_of(r@) =~= raws_of(r0).push(r@.last()@));
            a = a + 1;
        }
        assert(divide(ws.skip(p as int), args@.skip(a as int)) =~= Seq::<Seq<Seq<char>>>::empty());
        assert(raws_of(r@) + Seq::<Seq<Seq<char>>>::empty() =~= raws_of(r@));
        r
    }

    /// Binds the words of `ins` to an option's slot.
    pub fn divide_opt(ins: &Instance, arg: &Option<Argument>) -> (r: Raw)
        ensures
            r@ == divide_option(ins.words(), *arg),
    {
        let n = ins.args.len();
        match arg {
            None => Raw(Vec::new()),
            Some(a) => {
                if a.ty.is_multiple() {
                    let r = Raw(copy_words(&ins.args, 0, n));
                    assert(ins.words().subrange(0, n as int) =~= ins.words());
                    r
                } else if n > 0 {
                    Raw(copy_words(&ins.args, 0, 1))
                } else {
                    let r = Raw(Vec::new());
                    assert(r@ =~= ins.words());
                    r
                }
            },
        }
    }
}

/// As a boolean: true unless the first word is `false`, so an option given
/// with no words reads as true.
pub open spec fn truth_of(words: Seq<Seq<char>>) -> bool {
    words.len() == 0 || words[0] != "false"@
}

impl From<Raw> for bool {
    fn from(raw: Raw) -> (r: bool) {
        raw.0.len() == 0 || !crate::text::str_eq(raw.0[0].as_str(), "false")
    }
}

impl vstd::std_specs::convert::FromSpecImpl<Raw> for bool {
    open spec fn obeys_from_spec() -> bool {
        true
    }

    open spec fn from_spec(raw: Raw) -> bool {
        truth_of(raw@)
    }
}

/// As the list of its words.
impl From<Raw> for Vec<String> {
    fn from(raw: Raw) -> (r: Vec<String>) {
        raw.0
    }
}

impl vstd::std_specs::convert::FromSpecImpl<Raw> for Vec<String> {
    open spec fn obeys_from_spec() -> bool {
        true
    }

    open spec fn from_spec(raw: Raw) -> Vec<String> {
        raw.0
    }
}

impl Raw {
    /// The integer that the first word writes; none when there is no word or
    /// the word writes no integer that an `i64` holds.
    pub fn to_int(&self) -> (r: Option<i64>)
        ensures
            r is Some <==> self@.len() > 0 && fits_i64(self@[0]),
            r is Some ==> r->0 == integer_of(self@[0])->0,
    {
        if self.0.len() == 0 {
            None
        } else {
            parse_integer(self.0[0].as_str())
        }
    }

    /// The integer that each word writes; none when some word writes no
    /// integer that an `i64` holds.
    pub fn to_ints(&self) -> (r: Option<Vec<i64>>)
        ensures
            r is Some <==> forall|i: int| 0 <= i < self@.len() ==> fits_i64(#[trigger] self@[i]),
            r is Some ==> r->0@.len() == self@.len() && forall|i: int|
                0 <= i < self@.len() ==> r->0@[i] == integer_of(#[trigger] self@[i])->0,
    {
        let mut out: Vec<i64> = Vec::new();
        let mut i: usize = 0;
        while i < self.0.len()
            invariant
                i <= self@.len(),
                out@.len() == i,
                forall|j: int| 0 <= j < i ==> fits_i64(#[trigger] self@[j]),
                forall|j: int| 0 <= j < i ==> out@[j] == integer_of(#[trigger] self@[j])->0,
            decreases self.0.len() - i,
        {
            match parse_integer(self.0[i].as_str()) {
                Some(v) => out.push(v),
                None => {
                    assert(!fits_i64(self@[i as int]));
                    return None;
                },
            }
            i = i + 1;
        }
        Some(out)
    }

    /// The first word, or the empty string when there is none.
    pub fn first_word(&self) -> (r: String)
        ensures
            self@.len() == 0 ==> r@.len() == 0,
            self@.len() > 0 ==> r@ == self@[0],
    {
        if self.0.len() == 0 {
            String::new()
        } else {
            self.0[0].clone()
        }
    }
}

} // verus!
