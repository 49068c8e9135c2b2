//! Sibling ordering: case-insensitive lexicographic comparison of names.
//! Uppercase ASCII letters compare as their lowercase counterparts; all other
//! characters compare by code point.

use vstd::prelude::*;

verus! {

/// The comparison value of one character: uppercase ASCII letters fold onto
/// their lowercase counterparts.
pub open spec fn fold_char(c: char) -> u32 {
    if 65 <= c as u32 && c as u32 <= 90 {
        (c as u32 + 32) as u32
    } else {
        c as u32
    }
}

/// The comparison key of a name.
pub open spec fn ci_key(s: Seq<char>) -> Seq<u32> {
    s.map_values(|c: char| fold_char(c))
}

/// Lexicographic order on comparison keys.
pub open spec fn lex_le(a: Seq<u32>, b: Seq<u32>) -> bool
    decreases a.len(),
{
    if a.len() == 0 {
        true
    } else if b.len() == 0 {
        false
    } else if a[0] < b[0] {
        true
    } else if a[0] > b[0] {
        false
    } else {
        lex_le(a.drop_first(), b.drop_first())
    }
}

/// Strict lexicographic order.
pub open spec fn lex_lt(a: Seq<u32>, b: Seq<u32>) -> bool {
    !lex_le(b, a)
}

/// The order is total.
pub proof fn lemma_lex_le_total(a: Seq<u32>, b: Seq<u32>)
    ensures
        lex_le(a, b) || lex_le(b, a),
    decreases a.len(),
{
    if a.len() != 0 && b.len() != 0 && a[0] == b[0] {
        lemma_lex_le_total(a.drop_first(), b.drop_first());
    }
}

/// The order is transitive.
pub proof fn lemma_lex_le_trans(a: Seq<u32>, b: Seq<u32>, c: Seq<u32>)
    requires
        lex_le(a, b),
        lex_le(b, c),
    ensures
        lex_le(a, c),
    decreases a.len(),
{
    if a.len() != 0 {
        if a[0] == b[0] && b[0] == c[0] {
            lemma_lex_le_trans(a.drop_first(), b.drop_first(), c.drop_first());
        }
    }
}

/// A first stretch of equal key elements does not decide the comparison.
pub proof fn lemma_lex_le_skip(a: Seq<u32>, b: Seq<u32>, i: int)
    requires
        0 <= i <= a.len(),
        i <= b.len(),
        forall|j: int| 0 <= j < i ==> a[j] == b[j],
    ensures
        lex_le(a, b) == lex_le(a.subrange(i, a.len() as int), b.subrange(i, b.len() as int)),
    decreases i,
{
    if i > 0 {
        let a1 = a.drop_first();
        let b1 = b.drop_first();
        lemma_lex_le_skip(a1, b1, i - 1);
        assert(a1.subrange(i - 1, a1.len() as int) =~= a.subrange(i, a.len() as int));
        assert(b1.subrange(i - 1, b1.len() as int) =~= b.subrange(i, b.len() as int));
    } else {
        assert(a.subrange(0, a.len() as int) =~= a);
        assert(b.subrange(0, b.len() as int) =~= b);
    }
}

/// The comparison value of one character.
fn fold_char_exec(c: char) -> (r: u32)
    ensures
        r == fold_char(c),
{
    let u = c as u32;
    if 65 <= u && u <= 90 {
        u + 32
    } else {
        u
    }
}

/// Case-insensitive comparison of two names: `a` at or before `b`.
pub fn name_le(a: &str, b: &str) -> (r: bool)
    ensures
        r == lex_le(ci_key(a@), ci_key(b@)),
{
    let na = a.unicode_len();
    let nb = b.unicode_len();
    let min = if na < nb {
        na
    } else {
        nb
    };
    let ghost ka = ci_key(a@);
    let ghost kb = ci_key(b@);
    let mut i: usize = 0;
    while i < min
        invariant
            0 <= i <= min,
            na == a@.len(),
            nb == b@.len(),
            min == if na < nb {
                na
            } else {
                nb
            },
            ka == ci_key(a@),
            kb == ci_key(b@),
            forall|j: int| 0 <= j < i ==> ka[j] == kb[j],
        decreases min - i,
    {
        let ca = fold_char_exec(a.get_char(i));
        let cb = fold_char_exec(b.get_char(i));
        if ca < cb {
            proof {
                lemma_lex_le_skip(ka, kb, i as int);
            }
            return true;
        }
        if ca > cb {
            proof {
                lemma_lex_le_skip(ka, kb, i as int);
            }
            return false;
        }
        i = i + 1;
    }
    proof {
        lemma_lex_le_skip(ka, kb, min as int);
        lemma_lex_le_skip(kb, ka, min as int);
        lemma_lex_le_total(ka.subrange(min as int, ka.len() as int), kb.subrange(min as int, kb.len() as int));
    }
    na <= nb
}

/// Case-insensitive comparison of two names: `a` strictly before `b`.
pub fn name_lt(a: &str, b: &str) -> (r: bool)
    ensures
        r == lex_lt(ci_key(a@), ci_key(b@)),
{
    !name_le(b, a)
}

} // verus!
