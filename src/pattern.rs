//! The shape of one raw token: a cluster of short flags, a long flag, a long
//! flag with an inline value, a bare word, or something else.
use vstd::prelude::*;
use vstd::string::*;
use crate::search::{first_index, lemma_first_index_at, lemma_first_index_none};

verus! {

pub open spec fn is_letter(c: char) -> bool {
    ('a' <= c && c <= 'z') || ('A' <= c && c <= 'Z')
}

pub open spec fn is_name_start(c: char) -> bool {
    is_letter(c) || ('0' <= c && c <= '9')
}

pub open spec fn is_name_char(c: char) -> bool {
    is_name_start(c) || c == '-' || c == '_'
}

/// A long flag's name: a letter or digit, then letters, digits, `-` and `_`.
pub open spec fn is_name(n: Seq<char>) -> bool {
    &&& n.len() > 0
    &&& is_name_start(n[0])
    &&& forall|i: int| 0 <= i < n.len() ==> #[trigger] is_name_char(n[i])
}

pub open spec fn is_equals(c: char) -> bool {
    c == '='
}

/// The position of the first `=`.
pub open spec fn equals_at(s: Seq<char>) -> Option<int> {
    first_index(s, |c: char| is_equals(c))
}

pub open spec fn starts_with_two_dashes(s: Seq<char>) -> bool {
    s.len() >= 2 && s[0] == '-' && s[1] == '-'
}

/// `-` followed by one or more letters, such as `-rf`.
pub open spec fn is_short_shape(s: Seq<char>) -> bool {
    &&& s.len() >= 2
    &&& s[0] == '-'
    &&& forall|i: int| 1 <= i < s.len() ==> #[trigger] is_letter(s[i])
}

/// `--` followed by a name, such as `--recursive`.
pub open spec fn is_long_shape(s: Seq<char>) -> bool {
    starts_with_two_dashes(s) && is_name(s.skip(2))
}

/// `--` followed by a name, `=` and a value, such as `--dirs=a b`.
pub open spec fn is_stmt_shape(s: Seq<char>) -> bool {
    &&& starts_with_two_dashes(s)
    &&& equals_at(s) is Some
    &&& is_name(s.subrange(2, equals_at(s)->0))
}

/// The shape of a token, with the parts of it that the tokenizer reads.
pub enum Shape {
    Short(Seq<char>),
    Long(Seq<char>),
    Stmt(Seq<char>, Seq<char>),
    Word,
    Other,
}

pub open spec fn classify(s: Seq<char>) -> Shape {
    if is_short_shape(s) {
        Shape::Short(s.skip(1))
    } else if is_long_shape(s) {
        Shape::Long(s.skip(2))
    } else if is_stmt_shape(s) {
        Shape::Stmt(s.subrange(2, equals_at(s)->0), s.skip(equals_at(s)->0 + 1))
    } else if s.len() == 0 || s[0] != '-' {
        Shape::Word
    } else {
        Shape::Other
    }
}

/// A classified token: the flags of a cluster, a long flag's name, a long
/// flag's name and inline value, a bare word, or something else.
pub enum Pattern {
    Short(String),
    Long(String),
    Stmt(String, String),
    Word,
    Other,
}

impl View for Pattern {
    type V = Shape;

    open spec fn view(&self) -> Shape {
        match self {
            Pattern::Short(f) => Shape::Short(f@),
            Pattern::Long(n) => Shape::Long(n@),
            Pattern::Stmt(n, v) => Shape::Stmt(n@, v@),
            Pattern::Word => Shape::Word,
            Pattern::Other => Shape::Other,
        }
    }
}

fn letter(c: char) -> (r: bool)
    ensures
        r == is_letter(c),
{
    ('a' <= c && c <= 'z') || ('A' <= c && c <= 'Z')
}

fn name_start(c: char) -> (r: bool)
    ensures
        r == is_name_start(c),
{
    letter(c) || ('0' <= c && c <= '9')
}

/// Whether `s[from..]` is made of letters.
fn letters_from(s: &str, from: usize) -> (r: bool)
    requires
        from <= s@.len(),
    ensures
        r == forall|i: int| from <= i < s@.len() ==> #[trigger] is_letter(s@[i]),
{
    let n = s.unicode_len();
    let mut i: usize = from;
    while i < n
        invariant
            n == s@.len(),
            from <= i <= n,
            forall|j: int| from <= j < i ==> #[trigger] is_letter(s@[j]),
        decreases n - i,
    {
        if !letter(s.get_char(i)) {
            return false;
        }
        i = i + 1;
    }
    true
}

/// Whether `s[from..to]` is a name.
fn name_between(s: &str, from: usize, to: usize) -> (r: bool)
    requires
        from <= to <= s@.len(),
    ensures
        r == is_name(s@.subrange(from as int, to as int)),
{
    let ghost t = s@.subrange(from as int, to as int);
    if from == to || !name_start(s.get_char(from)) {
        return false;
    }
    let mut i: usize = from;
    while i < to
        invariant
            t == s@.subrange(from as int, to as int),
            from <= i <= to <= s@.len(),
            forall|j: int| 0 <= j < i - from ==> #[trigger] is_name_char(t[j]),
        decreases to - i,
    {
        let c = s.get_char(i);
        if !(name_start(c) || c == '-' || c == '_') {
            assert(!is_name_char(t[i - from]));
            return false;
        }
        i = i + 1;
    }
    true
}

/// The position of the first `=` in `s`.
fn find_equals(s: &str) -> (r: Option<usize>)
    ensures
        r is Some <==> equals_at(s@) is Some,
        r is Some ==> r->0 == equals_at(s@)->0 && r->0 < s@.len(),
{
    let n = s.unicode_len();
    let mut i: usize = 0;
    while i < n
        invariant
            n == s@.len(),
            i <= n,
            forall|j: int| 0 <= j < i ==> !is_equals(s@[j]),
        decreases n - i,
    {
        if s.get_char(i) == '=' {
            proof {
                lemma_first_index_at(s@, |c: char| is_equals(c), i as int);
            }
            return Some(i);
        }
        i = i + 1;
    }
    proof {
        lemma_first_index_none(s@, |c: char| is_equals(c));
    }
    None
}

impl Pattern {
    /// Classifies one raw token.
    pub fn match_str(s: &str) -> (r: Pattern)
        ensures
            r@ == classify(s@),
    {
        let n = s.unicode_len();
        let dashes = n >= 2 && s.get_char(0) == '-' && s.get_char(1) == '-';
        if n >= 2 && s.get_char(0) == '-' && letters_from(s, 1) {
            return Pattern::Short(String::from_str(s.substring_char(1, n)));
        }
        if n >= 3 && dashes && name_between(s, 2, n) {
            return Pattern::Long(String::from_str(s.substring_char(2, n)));
        }
        if dashes {
            if let Some(e) = find_equals(s) {
                if e >= 2 && name_between(s, 2, e) {
                    return Pattern::Stmt(
                        String::from_str(s.substring_char(2, e)),
                        String::from_str(s.substring_char(e + 1, n)),
                    );
                }
            }
        }
        if n == 0 || s.get_char(0) != '-' {
            Pattern::Word
        } else {
            Pattern::Other
        }
    }
}

} // verus!
