use vstd::prelude::*;
use vstd::string::StrSliceExecFns;

verus! {

/// The character sequences of a list of strings.
pub open spec fn str_views(ss: Seq<String>) -> Seq<Seq<char>> {
    ss.map_values(|s: String| s@)
}

/// The character sequence of an optional string: absent stays absent.
pub open spec fn opt_view(o: Option<String>) -> Option<Seq<char>> {
    match o {
        Some(s) => Some(s@),
        None => None,
    }
}

/// Lexicographic order on sequences of characters, by code point: the order
/// used when a resolved file list is sorted by path.
pub open spec fn lex_le(a: Seq<char>, b: Seq<char>) -> bool
    decreases a.len(),
{
    if a.len() == 0 {
        true
    } else if b.len() == 0 {
        false
    } else if a[0] == b[0] {
        lex_le(a.drop_first(), b.drop_first())
    } else {
        (a[0] as u32) < (b[0] as u32)
    }
}

/// The order is reflexive.
pub proof fn lemma_lex_le_refl(a: Seq<char>)
    ensures
        lex_le(a, a),
    decreases a.len(),
{
    if a.len() > 0 {
        lemma_lex_le_refl(a.drop_first());
    }
}

/// The order is total: any two sequences are comparable.
pub proof fn lemma_lex_le_total(a: Seq<char>, b: Seq<char>)
    ensures
        lex_le(a, b) || lex_le(b, a),
    decreases a.len(),
{
    if a.len() > 0 && b.len() > 0 {
        if a[0] == b[0] {
            lemma_lex_le_total(a.drop_first(), b.drop_first());
        } else {
            assert(a[0] as u32 != b[0] as u32) by {
                vstd::utf8::char_u32_cast(a[0], a[0] as u32);
                vstd::utf8::char_u32_cast(b[0], b[0] as u32);
            }
        }
    }
}

/// The order is transitive.
pub proof fn lemma_lex_le_transitive(a: Seq<char>, b: Seq<char>, c: Seq<char>)
    requires
        lex_le(a, b),
        lex_le(b, c),
    ensures
        lex_le(a, c),
    decreases a.len(),
{
    if a.len() > 0 && b.len() > 0 && c.len() > 0 {
        if a[0] == b[0] && b[0] == c[0] {
            lemma_lex_le_transitive(a.drop_first(), b.drop_first(), c.drop_first());
        }
    }
}

/// Whether two string slices hold the same characters.
pub fn str_eq(a: &str, b: &str) -> (r: bool)
    ensures
        r == (a@ == b@),
{
    let a_len = a.unicode_len();
    let b_len = b.unicode_len();
    if a_len != b_len {
        proof {
            assert(a@ != b@);
        }
        return false;
    }
    let mut i: usize = 0;
    while i < a_len
        invariant
            a_len == a@.len(),
            b_len == b@.len(),
            a_len == b_len,
            i <= a_len,
            forall|j: int| 0 <= j < i ==> a@[j] == b@[j],
        decreases a_len - i,
    {
        if a.get_char(i) != b.get_char(i) {
            return false;
        }
        i += 1;
    }
    proof {
        assert(a@ =~= b@);
    }
    true
}

/// Whether `a` comes no later than `b` in lexicographic code-point order.
pub fn str_lex_le(a: &str, b: &str) -> (r: bool)
    ensures
        r == lex_le(a@, b@),
{
    let a_len = a.unicode_len();
    let b_len = b.unicode_len();
    let mut i: usize = 0;
    proof {
        assert(a@.skip(0) =~= a@);
        assert(b@.skip(0) =~= b@);
    }
    loop
        invariant
            a_len == a@.len(),
            b_len == b@.len(),
            i <= a_len,
            i <= b_len,
            lex_le(a@, b@) == lex_le(a@.skip(i as int), b@.skip(i as int)),
        decreases a_len - i,
    {
        if i == a_len {
            assert(a@.skip(i as int).len() == 0);
            return true;
        }
        if i == b_len {
            assert(b@.skip(i as int).len() == 0);
            assert(a@.skip(i as int).len() > 0);
            return false;
        }
        let ca = a.get_char(i);
        let cb = b.get_char(i);
        if ca == cb {
            proof {
                assert(a@.skip(i as int)[0] == a@[i as int]);
                assert(b@.skip(i as int)[0] == b@[i as int]);
                assert(a@.skip(i as int).drop_first() =~= a@.skip(i + 1));
                assert(b@.skip(i as int).drop_first() =~= b@.skip(i + 1));
            }
            i += 1;
        } else {
            proof {
                assert(a@.skip(i as int)[0] == a@[i as int]);
                assert(b@.skip(i as int)[0] == b@[i as int]);
            }
            return (ca as u32) < (cb as u32);
        }
    }
}

} // verus!
