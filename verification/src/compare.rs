//! The comparator engine: direction-aware, type-coercing three-way
//! comparison of classified keys.
//!
//! Two numeric keys compare by their order keys when both are finite;
//! a non-finite number compares `Equal` to everything. Two text keys
//! compare codepoint-wise. Every other pairing — mismatched kinds,
//! booleans, null, missing or otherwise incomparable keys — compares
//! `Equal`, leaving the relative order of such a pair to the sort.
//! The descending direction swaps the operands fed to the ascending
//! comparison rather than negating its outcome, so the `Equal` fallback
//! is the same in both directions.

use vstd::prelude::*;
use vstd::string::StrSliceExecFns;

use crate::value::Value;
use crate::value::ValueView;

verus! {

/// Three-way result of comparing two sort keys.
#[derive(Clone, Copy, Debug, PartialEq, Eq, Structural)]
pub enum Outcome {
    Less,
    Equal,
    Greater,
}

/// The opposite outcome: what an order relation yields for the same
/// operands in swapped order.
pub open spec fn flip(o: Outcome) -> Outcome {
    match o {
        Outcome::Less => Outcome::Greater,
        Outcome::Equal => Outcome::Equal,
        Outcome::Greater => Outcome::Less,
    }
}

/// Codepoint-wise lexicographic comparison of two character sequences.
pub open spec fn spec_text_cmp(a: Seq<char>, b: Seq<char>) -> Outcome
    decreases a.len(),
{
    if a.len() == 0 && b.len() == 0 {
        Outcome::Equal
    } else if a.len() == 0 {
        Outcome::Less
    } else if b.len() == 0 {
        Outcome::Greater
    } else if a[0] < b[0] {
        Outcome::Less
    } else if b[0] < a[0] {
        Outcome::Greater
    } else {
        spec_text_cmp(a.drop_first(), b.drop_first())
    }
}

/// Ascending comparison of two classified keys.
pub open spec fn spec_cmp_asc(a: ValueView, b: ValueView) -> Outcome {
    match (a, b) {
        (
            ValueView::Number { key: ka, finite: fa },
            ValueView::Number { key: kb, finite: fb },
        ) => if fa && fb {
            if ka < kb {
                Outcome::Less
            } else if kb < ka {
                Outcome::Greater
            } else {
                Outcome::Equal
            }
        } else {
            Outcome::Equal
        },
        (ValueView::Text(sa), ValueView::Text(sb)) => spec_text_cmp(sa, sb),
        _ => Outcome::Equal,
    }
}

/// Direction-aware comparison: descending feeds the operands to the
/// ascending comparison in swapped order.
pub open spec fn spec_cmp(a: ValueView, b: ValueView, ascending: bool) -> Outcome {
    if ascending {
        spec_cmp_asc(a, b)
    } else {
        spec_cmp_asc(b, a)
    }
}

/// `a` need not come after `b` in a sequence sorted in the given
/// direction.
pub open spec fn le(a: ValueView, b: ValueView, ascending: bool) -> bool {
    spec_cmp(a, b, ascending) != Outcome::Greater
}

/// Codepoint-wise lexicographic comparison, executable form.
pub fn text_cmp(a: &str, b: &str) -> (r: Outcome)
    ensures
        r == spec_text_cmp(a@, b@),
{
    let la = a.unicode_len();
    let lb = b.unicode_len();
    let mut i: usize = 0;
    proof {
        assert(a@.skip(0) =~= a@);
        assert(b@.skip(0) =~= b@);
    }
    loop
        invariant
            i <= la,
            i <= lb,
            la == a@.len(),
            lb == b@.len(),
            spec_text_cmp(a@, b@) == spec_text_cmp(a@.skip(i as int), b@.skip(i as int)),
        decreases la - i,
    {
        let ghost sa = a@.skip(i as int);
        let ghost sb = b@.skip(i as int);
        if i == la || i == lb {
            if la == lb {
                return Outcome::Equal;
            } else if i == la {
                return Outcome::Less;
            } else {
                return Outcome::Greater;
            }
        }
        let ca = a.get_char(i);
        let cb = b.get_char(i);
        proof {
            assert(sa[0] == a@[i as int]);
            assert(sb[0] == b@[i as int]);
        }
        if ca < cb {
            return Outcome::Less;
        } else if cb < ca {
            return Outcome::Greater;
        }
        proof {
            assert(sa.drop_first() =~= a@.skip(i as int + 1));
            assert(sb.drop_first() =~= b@.skip(i as int + 1));
        }
        i = i + 1;
    }
}

/// Equality of two strings, by their characters.
pub fn str_eq(a: &str, b: &str) -> (r: bool)
    ensures
        r == (a@ == b@),
{
    let c = text_cmp(a, b);
    proof {
        lemma_text_cmp_equal(a@, b@);
        lemma_text_cmp_refl(a@);
    }
    c == Outcome::Equal
}

/// Ascending comparison of two classified keys, executable form.
fn compare_asc(a: &Value, b: &Value) -> (r: Outcome)
    ensures
        r == spec_cmp_asc(a@, b@),
{
    match a {
        Value::Number { key: ka, finite: fa } => match b {
            Value::Number { key: kb, finite: fb } => {
                if *fa && *fb {
                    if *ka < *kb {
                        Outcome::Less
                    } else if *kb < *ka {
                        Outcome::Greater
                    } else {
                        Outcome::Equal
                    }
                } else {
                    Outcome::Equal
                }
            },
            _ => Outcome::Equal,
        },
        Value::Text(sa) => match b {
            Value::Text(sb) => text_cmp(sa.as_str(), sb.as_str()),
            _ => Outcome::Equal,
        },
        _ => Outcome::Equal,
    }
}

/// Direction-aware comparison of two classified keys. A pure total
/// function: it cannot fail, and incomparable pairings yield `Equal`.
pub fn compare_values(a: &Value, b: &Value, ascending: bool) -> (r: Outcome)
    ensures
        r == spec_cmp(a@, b@, ascending),
{
    if ascending {
        compare_asc(a, b)
    } else {
        compare_asc(b, a)
    }
}

/// A string compares `Equal` to itself.
pub proof fn lemma_text_cmp_refl(a: Seq<char>)
    ensures
        spec_text_cmp(a, a) == Outcome::Equal,
    decreases a.len(),
{
    if a.len() > 0 {
        lemma_text_cmp_refl(a.drop_first());
    }
}

/// Strings that compare `Equal` are equal.
pub proof fn lemma_text_cmp_equal(a: Seq<char>, b: Seq<char>)
    ensures
        spec_text_cmp(a, b) == Outcome::Equal ==> a == b,
    decreases a.len(),
{
    if a.len() > 0 && b.len() > 0 && a[0] == b[0] {
        lemma_text_cmp_equal(a.drop_first(), b.drop_first());
        if spec_text_cmp(a, b) == Outcome::Equal {
            assert(a.drop_first() == b.drop_first());
            assert forall|i: int| 0 <= i < a.len() implies a[i] == b[i] by {
                if i >= 1 {
                    assert(a[i] == a.drop_first()[i - 1]);
                    assert(b[i] == b.drop_first()[i - 1]);
                }
            }
            assert(a =~= b);
        }
    }
}

/// Swapping the operands of the text comparison flips its outcome.
pub proof fn lemma_text_cmp_flip(a: Seq<char>, b: Seq<char>)
    ensures
        spec_text_cmp(b, a) == flip(spec_text_cmp(a, b)),
    decreases a.len(),
{
    if a.len() > 0 && b.len() > 0 && a[0] == b[0] {
        lemma_text_cmp_flip(a.drop_first(), b.drop_first());
    }
}

/// The text comparison is transitive in `Less`.
pub proof fn lemma_text_cmp_trans(a: Seq<char>, b: Seq<char>, c: Seq<char>)
    requires
        spec_text_cmp(a, b) == Outcome::Less,
        spec_text_cmp(b, c) == Outcome::Less,
    ensures
        spec_text_cmp(a, c) == Outcome::Less,
    decreases a.len(),
{
    if a.len() > 0 && b.len() > 0 && c.len() > 0 && a[0] == b[0] && b[0] == c[0] {
        lemma_text_cmp_trans(a.drop_first(), b.drop_first(), c.drop_first());
    }
}

/// Swapping the operands of the ascending comparison flips its outcome:
/// the comparator orders any pair of keys consistently.
pub proof fn lemma_cmp_flip(a: ValueView, b: ValueView)
    ensures
        spec_cmp_asc(b, a) == flip(spec_cmp_asc(a, b)),
{
    if let ValueView::Text(sa) = a {
        if let ValueView::Text(sb) = b {
            lemma_text_cmp_flip(sa, sb);
        }
    }
}

/// A key compares `Equal` to itself.
pub proof fn lemma_cmp_refl(a: ValueView)
    ensures
        spec_cmp_asc(a, a) == Outcome::Equal,
{
    if let ValueView::Text(sa) = a {
        lemma_text_cmp_refl(sa);
    }
}

/// The comparison is transitive in `Less`, in either direction.
pub proof fn lemma_cmp_trans(a: ValueView, b: ValueView, c: ValueView, ascending: bool)
    requires
        spec_cmp(a, b, ascending) == Outcome::Less,
        spec_cmp(b, c, ascending) == Outcome::Less,
    ensures
        spec_cmp(a, c, ascending) == Outcome::Less,
{
    if ascending {
        if let ValueView::Text(sa) = a {
            if let ValueView::Text(sb) = b {
                if let ValueView::Text(sc) = c {
                    lemma_text_cmp_trans(sa, sb, sc);
                }
            }
        }
    } else {
        if let ValueView::Text(sa) = a {
            if let ValueView::Text(sb) = b {
                if let ValueView::Text(sc) = c {
                    lemma_text_cmp_trans(sc, sb, sa);
                }
            }
        }
    }
}

} // verus!
