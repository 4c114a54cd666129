//! Character-level helpers: ASCII lower-casing, lexicographic order on
//! character sequences, and sorting of string vectors.

use vstd::prelude::*;

verus! {

/// The ASCII lower-case image of a single character: `'A'..='Z'` map to
/// `'a'..='z'`, every other character is unchanged.
///
/// Case folding is ASCII-only by design: the fold stays a fully specified
/// function, so every contract built on it — pairing keys, extension
/// matching — states its result exactly.  Characters outside ASCII keep
/// their case.
pub open spec fn lower_char(c: char) -> char {
    if 'A' <= c && c <= 'Z' {
        ((c as u8) + 32) as char
    } else {
        c
    }
}

/// The character-wise ASCII lower-case image of a sequence.
pub open spec fn lower_seq(s: Seq<char>) -> Seq<char> {
    s.map_values(|c: char| lower_char(c))
}

/// Lower-cases one character, ASCII-wise.
pub fn lower_char_exec(c: char) -> (r: char)
    ensures
        r == lower_char(c),
{
    if 'A' <= c && c <= 'Z' {
        ((c as u8) + 32) as char
    } else {
        c
    }
}

/// Relies on std's `FromIterator<char>` for `String`: collecting characters
/// yields the string of exactly those characters in order.
#[verifier::external_body]
pub fn chars_to_string(v: &Vec<char>) -> (r: String)
    ensures
        r@ == v@,
{
    v.iter().collect()
}

/// Collects the characters of a string slice into a vector.
pub fn string_to_chars(s: &str) -> (r: Vec<char>)
    ensures
        r@ == s@,
{
    let n: usize = s.unicode_len();
    let mut r: Vec<char> = Vec::new();
    let mut i: usize = 0;
    while i < n
        invariant
            n == s@.len(),
            i <= n,
            r@.len() == i,
            forall|j: int| 0 <= j < i ==> r@[j] == s@[j],
        decreases n - i,
    {
        r.push(s.get_char(i));
        i = i + 1;
    }
    assert(r@ =~= s@);
    r
}

/// Lower-cases a string, ASCII-wise.
pub fn to_lower(s: &str) -> (r: String)
    ensures
        r@ == lower_seq(s@),
{
    let n: usize = s.unicode_len();
    let mut v: Vec<char> = Vec::new();
    let mut i: usize = 0;
    while i < n
        invariant
            n == s@.len(),
            i <= n,
            v@.len() == i,
            forall|j: int| 0 <= j < i ==> v@[j] == lower_char(s@[j]),
        decreases n - i,
    {
        v.push(lower_char_exec(s.get_char(i)));
        i = i + 1;
    }
    assert(v@ =~= lower_seq(s@));
    chars_to_string(&v)
}

/// Lexicographic order on character sequences by Unicode scalar value; the
/// order in which Rust compares strings.
pub open spec fn lex_le(a: Seq<char>, b: Seq<char>) -> bool
    decreases a.len(),
{
    if a.len() == 0 {
        true
    } else if b.len() == 0 {
        false
    } else if a[0] == b[0] {
        lex_le(a.drop_first(), b.drop_first())
    } else {
        (a[0] as u32) < (b[0] as u32)
    }
}

/// The order is total: of any two sequences one is below the other.
pub proof fn lemma_lex_total(a: Seq<char>, b: Seq<char>)
    ensures
        lex_le(a, b) || lex_le(b, a),
    decreases a.len(),
{
    if a.len() > 0 && b.len() > 0 {
        if a[0] == b[0] {
            lemma_lex_total(a.drop_first(), b.drop_first());
        } else {
            vstd::utf8::char_u32_cast(a[0], a[0] as u32);
            vstd::utf8::char_u32_cast(b[0], b[0] as u32);
        }
    }
}

/// The order is transitive.
pub proof fn lemma_lex_trans(a: Seq<char>, b: Seq<char>, c: Seq<char>)
    requires
        lex_le(a, b),
        lex_le(b, c),
    ensures
        lex_le(a, c),
    decreases a.len(),
{
    if a.len() > 0 && b.len() > 0 && c.len() > 0 {
        if a[0] == b[0] && b[0] == c[0] {
            lemma_lex_trans(a.drop_first(), b.drop_first(), c.drop_first());
        }
    }
}

/// Compares two strings in the lexicographic order of their characters.
pub fn str_le(a: &str, b: &str) -> (r: bool)
    ensures
        r == lex_le(a@, b@),
{
    let na: usize = a.unicode_len();
    let nb: usize = b.unicode_len();
    let mut i: usize = 0;
    proof {
        assert(a@.skip(0) =~= a@);
        assert(b@.skip(0) =~= b@);
    }
    loop
        invariant
            na == a@.len(),
            nb == b@.len(),
            i <= na,
            i <= nb,
            lex_le(a@, b@) == lex_le(a@.skip(i as int), b@.skip(i as int)),
        decreases na - i,
    {
        if i >= na {
            assert(lex_le(a@.skip(i as int), b@.skip(i as int)));
            return true;
        }
        if i >= nb {
            assert(!lex_le(a@.skip(i as int), b@.skip(i as int)));
            return false;
        }
        let ca = a.get_char(i);
        let cb = b.get_char(i);
        if ca != cb {
            assert(a@.skip(i as int)[0] == ca && b@.skip(i as int)[0] == cb);
            return (ca as u32) < (cb as u32);
        }
        assert(a@.skip(i as int).drop_first() =~= a@.skip(i + 1));
        assert(b@.skip(i as int).drop_first() =~= b@.skip(i + 1));
        i = i + 1;
    }
}

/// Adjacent pairs of the sequence of string views stand in `lex_le`.
pub open spec fn sorted_strings(s: Seq<String>) -> bool {
    forall|i: int, j: int| 0 <= i < j < s.len() ==> lex_le(s[i]@, s[j]@)
}

/// Exchanges the entries at `a` and `a + 1`.
fn swap_adjacent(v: &mut Vec<String>, a: usize)
    requires
        a + 1 < old(v)@.len(),
    ensures
        final(v)@ =~= old(v)@.update(a as int, old(v)@[a + 1]).update(a + 1, old(v)@[a as int]),
        final(v)@.to_multiset() == old(v)@.to_multiset(),
{
    // Reading the length first shows the verifier that `a + 1` fits.
    let _len: usize = v.len();
    let x = v.remove(a + 1);
    v.insert(a, x);
    proof {
        broadcast use vstd::seq_lib::group_to_multiset_ensures;

        let s0 = old(v)@;
        let s1 = s0.update(a as int, s0[a + 1]);
        let s2 = s1.update(a + 1, s0[a as int]);
        assert(v@ =~= s2);
        vstd::seq_lib::to_multiset_update(s0, a as int, s0[a + 1]);
        vstd::seq_lib::to_multiset_update(s1, a + 1, s0[a as int]);
        assert(s0.contains(s0[a as int]) && s0.contains(s0[a + 1]));
        assert(s1.contains(s1[a + 1]));
        assert(s2.to_multiset() =~= s0.to_multiset());
    }
}

/// Sorts a vector of strings in lexicographic order, keeping exactly the
/// same strings (as a multiset).
pub fn sort_strings(v: &mut Vec<String>)
    ensures
        sorted_strings(final(v)@),
        final(v)@.to_multiset() == old(v)@.to_multiset(),
{
    let n: usize = v.len();
    if n <= 1 {
        return ;
    }
    let mut i: usize = 1;
    while i < n
        invariant
            n == v@.len(),
            1 <= i <= n,
            v@.to_multiset() == old(v)@.to_multiset(),
            forall|p: int, q: int| 0 <= p < q < i ==> lex_le(#[trigger] v@[p]@, #[trigger] v@[q]@),
        decreases n - i,
    {
        let mut j: usize = i;
        while j > 0 && !str_le(v[j - 1].as_str(), v[j].as_str())
            invariant
                n == v@.len(),
                i < n,
                j <= i,
                v@.to_multiset() == old(v)@.to_multiset(),
                forall|p: int, q: int|
                    0 <= p < q <= i as int && q != j ==> lex_le(
                        #[trigger] v@[p]@,
                        #[trigger] v@[q]@,
                    ),
            decreases j,
        {
            proof {
                lemma_lex_total(v@[j - 1]@, v@[j as int]@);
                if j + 1 <= i {
                    lemma_lex_trans(v@[j as int]@, v@[j - 1]@, v@[j + 1]@);
                }
            }
            swap_adjacent(v, j - 1);
            j = j - 1;
        }
        proof {
            assert forall|p: int, q: int| 0 <= p < q <= i as int implies lex_le(
                #[trigger] v@[p]@,
                #[trigger] v@[q]@,
            ) by {
                if q == j as int && j > 0 {
                    assert(lex_le(v@[j - 1]@, v@[j as int]@));
                    if p < j - 1 {
                        lemma_lex_trans(v@[p]@, v@[j - 1]@, v@[j as int]@);
                    }
                }
            }
        }
        i = i + 1;
    }
}

} // verus!
