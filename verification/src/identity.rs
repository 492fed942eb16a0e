//! Stable textual identifiers for tournaments, entrants, clubs and matches.
//!
//! Identifiers are compared and ordered by their characters. The order is the
//! lexicographic order of Unicode scalar values, which is the order Rust gives
//! to `str`.
use vstd::prelude::*;
use vstd::string::StrSliceExecFns;
use vstd::std_specs::cmp::PartialEqSpecImpl;

verus! {

/// Three-way comparison of two character sequences in lexicographic order:
/// negative when `a` sorts first, zero when equal, positive otherwise.
pub open spec fn text_order(a: Seq<char>, b: Seq<char>) -> int
    decreases a.len(),
{
    if a.len() == 0 {
        if b.len() == 0 { 0 } else { -1 }
    } else if b.len() == 0 {
        1
    } else if (a[0] as int) < (b[0] as int) {
        -1
    } else if (a[0] as int) > (b[0] as int) {
        1
    } else {
        text_order(a.drop_first(), b.drop_first())
    }
}

/// `a` sorts strictly before `b`.
pub open spec fn text_lt(a: Seq<char>, b: Seq<char>) -> bool {
    text_order(a, b) < 0
}

/// `a` sorts before `b` or equals it.
pub open spec fn text_le(a: Seq<char>, b: Seq<char>) -> bool {
    text_order(a, b) <= 0
}

/// The comparison is zero exactly on equal sequences.
pub proof fn lemma_text_order_zero(a: Seq<char>, b: Seq<char>)
    ensures
        (text_order(a, b) == 0) <==> (a == b),
    decreases a.len(),
{
    if a.len() != 0 && b.len() != 0 && (a[0] as int) == (b[0] as int) {
        lemma_text_order_zero(a.drop_first(), b.drop_first());
        assert(a[0] == b[0]);
        if a.drop_first() == b.drop_first() {
            assert(a =~= seq![a[0]] + a.drop_first());
            assert(b =~= seq![b[0]] + b.drop_first());
        }
        if a == b {
            assert(a.drop_first() =~= b.drop_first());
        }
    } else if a.len() != 0 && b.len() != 0 {
        if a == b {
            assert(a[0] == b[0]);
        }
    } else if a.len() == 0 && b.len() == 0 {
        assert(a =~= b);
    }
}

/// Swapping the arguments negates the sign of the comparison.
pub proof fn lemma_text_order_antisymmetric(a: Seq<char>, b: Seq<char>)
    ensures
        text_order(a, b) == -text_order(b, a),
        -1 <= text_order(a, b) <= 1,
    decreases a.len(),
{
    if a.len() != 0 && b.len() != 0 && (a[0] as int) == (b[0] as int) {
        lemma_text_order_antisymmetric(a.drop_first(), b.drop_first());
    }
}

/// The comparison is transitive.
pub proof fn lemma_text_le_transitive(a: Seq<char>, b: Seq<char>, c: Seq<char>)
    requires
        text_le(a, b),
        text_le(b, c),
    ensures
        text_le(a, c),
        text_lt(a, b) || text_lt(b, c) ==> text_lt(a, c),
    decreases a.len(),
{
    lemma_text_order_antisymmetric(a, b);
    lemma_text_order_antisymmetric(b, c);
    lemma_text_order_antisymmetric(a, c);
    if a.len() != 0 && b.len() != 0 && c.len() != 0 {
        if (a[0] as int) == (b[0] as int) && (b[0] as int) == (c[0] as int) {
            lemma_text_le_transitive(a.drop_first(), b.drop_first(), c.drop_first());
        }
    }
}

/// A textual identifier. `EntrantId`, `ClubId`, `MatchId` and `TournamentId`
/// name the roles in which it is used.
#[derive(Clone, Debug, Eq, Hash)]
pub struct Identifier {
    value: String,
}

pub type EntrantId = Identifier;

pub type ClubId = Identifier;

pub type MatchId = Identifier;

pub type TournamentId = Identifier;

impl View for Identifier {
    type V = Seq<char>;

    closed spec fn view(&self) -> Seq<char> {
        self.value@
    }
}

impl PartialEq for Identifier {
    fn eq(&self, other: &Self) -> (equal: bool) {
        self.value == other.value
    }
}

impl PartialEqSpecImpl for Identifier {
    open spec fn obeys_eq_spec() -> bool {
        true
    }

    open spec fn eq_spec(&self, other: &Self) -> bool {
        self@ == other@
    }
}

impl Identifier {
    pub fn new(value: &str) -> (id: Self)
        ensures
            id@ == value@,
    {
        Identifier { value: value.to_owned() }
    }

    pub fn from_string(value: String) -> (id: Self)
        ensures
            id@ == value@,
    {
        Identifier { value }
    }

    pub fn as_str(&self) -> (text: &str)
        ensures
            text@ == self@,
    {
        self.value.as_str()
    }

    /// A copy with the same text.
    pub fn duplicate(&self) -> (copy: Self)
        ensures
            copy@ == self@,
    {
        Identifier { value: self.value.clone() }
    }

    /// Whether both identifiers hold the same text.
    pub fn same_as(&self, other: &Self) -> (equal: bool)
        ensures
            equal == (self@ == other@),
    {
        self.value == other.value
    }

    /// Three-way comparison in lexicographic character order.
    pub fn compare(&self, other: &Self) -> (order: i8)
        ensures
            order as int == text_order(self@, other@),
    {
        compare_text(self.value.as_str(), other.value.as_str())
    }

    /// Whether `self` sorts strictly before `other`.
    pub fn precedes(&self, other: &Self) -> (before: bool)
        ensures
            before == text_lt(self@, other@),
    {
        self.compare(other) < 0
    }
}

proof fn lemma_skip_first(s: Seq<char>, i: int)
    requires
        0 <= i < s.len(),
    ensures
        s.skip(i).drop_first() =~= s.skip(i + 1),
        s.skip(i)[0] == s[i],
{
}

/// Three-way comparison of two strings in lexicographic character order.
pub fn compare_text(a: &str, b: &str) -> (order: i8)
    ensures
        order as int == text_order(a@, b@),
{
    let a_len = a.unicode_len();
    let b_len = b.unicode_len();
    let mut i: usize = 0;
    assert(a@.skip(0) =~= a@);
    assert(b@.skip(0) =~= b@);
    while i < a_len && i < b_len
        invariant
            a_len == a@.len(),
            b_len == b@.len(),
            i <= a_len,
            i <= b_len,
            text_order(a@, b@) == text_order(a@.skip(i as int), b@.skip(i as int)),
        decreases a_len - i,
    {
        let ca = a.get_char(i);
        let cb = b.get_char(i);
        proof {
            lemma_skip_first(a@, i as int);
            lemma_skip_first(b@, i as int);
        }
        if (ca as u32) < (cb as u32) {
            return -1;
        }
        if (ca as u32) > (cb as u32) {
            return 1;
        }
        i = i + 1;
    }
    if i == a_len && i == b_len {
        0
    } else if i == a_len {
        -1
    } else {
        1
    }
}

} // verus!
