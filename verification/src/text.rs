//! String utilities the rest of the library builds on: character-exact
//! equality, literal substring search, and splitting on a separator character.

use vstd::prelude::*;

verus! {

/// `p` occurs in `s` starting at index `i`.
pub open spec fn matches_at(s: Seq<char>, p: Seq<char>, i: int) -> bool {
    0 <= i && i + p.len() <= s.len() && s.subrange(i, i + p.len()) == p
}

/// `p` occurs somewhere in `s` as a contiguous run of characters.
pub open spec fn is_substring(s: Seq<char>, p: Seq<char>) -> bool {
    exists|i: int| matches_at(s, p, i)
}

/// Character-exact equality of two string slices.
pub fn str_eq(a: &str, b: &str) -> (r: bool)
    ensures
        r == (a@ == b@),
{
    let alen = a.unicode_len();
    let blen = b.unicode_len();
    if alen != blen {
        return false;
    }
    let mut i: usize = 0;
    while i < alen
        invariant
            i <= alen,
            alen == a@.len(),
            alen == b@.len(),
            forall|j: int| 0 <= j < i ==> a@[j] == b@[j],
        decreases alen - i,
    {
        if a.get_char(i) != b.get_char(i) {
            return false;
        }
        i = i + 1;
    }
    proof {
        assert(a@ =~= b@);
    }
    true
}

/// Does `p` occur in `s` starting exactly at index `i`?
fn match_at(s: &str, p: &str, i: usize) -> (r: bool)
    requires
        i + p@.len() <= s@.len(),
        s@.len() <= usize::MAX,
    ensures
        r == matches_at(s@, p@, i as int),
{
    let plen = p.unicode_len();
    let mut j: usize = 0;
    while j < plen
        invariant
            i + plen <= s@.len(),
            s@.len() <= usize::MAX,
            plen == p@.len(),
            j <= plen,
            forall|l: int| 0 <= l < j ==> s@[i + l] == p@[l],
        decreases plen - j,
    {
        if s.get_char(i + j) != p.get_char(j) {
            proof {
                assert(!matches_at(s@, p@, i as int)) by {
                    if matches_at(s@, p@, i as int) {
                        assert(s@.subrange(i as int, i + p@.len())[j as int] == p@[j as int]);
                    }
                }
            }
            return false;
        }
        j = j + 1;
    }
    proof {
        assert(s@.subrange(i as int, i + p@.len()) =~= p@);
    }
    true
}

/// Literal, case-sensitive, unanchored substring search.
pub fn contains_substr(s: &str, p: &str) -> (r: bool)
    ensures
        r == is_substring(s@, p@),
{
    let slen = s.unicode_len();
    let plen = p.unicode_len();
    if plen > slen {
        assert(forall|i: int| !matches_at(s@, p@, i));
        return false;
    }
    if plen == 0 {
        proof {
            assert(s@.subrange(0, 0) =~= p@);
            assert(matches_at(s@, p@, 0));
        }
        return true;
    }
    let mut i: usize = 0;
    while i <= slen - plen
        invariant
            0 < plen <= slen,
            slen == s@.len(),
            plen == p@.len(),
            i <= slen - plen + 1,
            forall|k: int| 0 <= k < i ==> !matches_at(s@, p@, k),
        decreases slen - plen + 1 - i,
    {
        if match_at(s, p, i) {
            assert(matches_at(s@, p@, i as int));
            return true;
        }
        i = i + 1;
    }
    proof {
        assert(forall|k: int| !matches_at(s@, p@, k));
    }
    false
}

/// The pieces of `s` delimited by `sep`, in order. Empty pieces are kept, so
/// a leading, trailing or doubled separator yields an empty piece, and a
/// string without the separator (the empty string included) is one piece.
pub open spec fn split_spec(s: Seq<char>, sep: char) -> Seq<Seq<char>>
    decreases s.len(),
{
    if s.len() == 0 {
        seq![Seq::<char>::empty()]
    } else if s[0] == sep {
        seq![Seq::<char>::empty()] + split_spec(s.skip(1), sep)
    } else {
        let rest = split_spec(s.skip(1), sep);
        seq![seq![s[0]] + rest[0]] + rest.skip(1)
    }
}

/// Splitting always yields at least one piece.
pub proof fn lemma_split_len(s: Seq<char>, sep: char)
    ensures
        split_spec(s, sep).len() >= 1,
    decreases s.len(),
{
    if s.len() == 0 {
    } else {
        lemma_split_len(s.skip(1), sep);
    }
}

/// How one more character extends the pieces: a separator opens a new empty
/// piece, any other character goes onto the end of the last piece.
pub proof fn lemma_split_push(s: Seq<char>, sep: char, c: char)
    ensures
        c == sep ==> split_spec(s.push(c), sep) == split_spec(s, sep).push(Seq::<char>::empty()),
        c != sep ==> split_spec(s.push(c), sep) == split_spec(s, sep).drop_last().push(
            split_spec(s, sep).last().push(c),
        ),
    decreases s.len(),
{
    lemma_split_len(s, sep);
    if s.len() == 0 {
        assert(s.push(c).skip(1) =~= s);
        assert(s.push(c)[0] == c);
        if c == sep {
            assert(split_spec(s.push(c), sep) =~= split_spec(s, sep).push(Seq::<char>::empty()));
        } else {
            assert(seq![s.push(c)[0]] + split_spec(s, sep)[0] =~= seq![c]);
            assert(split_spec(s.push(c), sep) =~= split_spec(s, sep).drop_last().push(
                split_spec(s, sep).last().push(c),
            ));
        }
    } else {
        lemma_split_push(s.skip(1), sep, c);
        lemma_split_len(s.skip(1), sep);
        assert(s.push(c)[0] == s[0]);
        assert(s.push(c).skip(1) =~= s.skip(1).push(c));
        let r = split_spec(s.skip(1), sep);
        let rp = split_spec(s.skip(1).push(c), sep);
        if s[0] == sep {
            if c == sep {
                assert(split_spec(s.push(c), sep) =~= split_spec(s, sep).push(
                    Seq::<char>::empty(),
                ));
            } else {
                assert(rp == r.drop_last().push(r.last().push(c)));
                assert(split_spec(s, sep).last() == r.last());
                assert(split_spec(s.push(c), sep) =~= split_spec(s, sep).drop_last().push(
                    split_spec(s, sep).last().push(c),
                ));
            }
        } else {
            if c == sep {
                assert(rp == r.push(Seq::<char>::empty()));
                assert(rp[0] == r[0]);
                assert(rp.skip(1) =~= r.skip(1).push(Seq::<char>::empty()));
                assert(split_spec(s.push(c), sep) =~= split_spec(s, sep).push(
                    Seq::<char>::empty(),
                ));
            } else {
                assert(rp == r.drop_last().push(r.last().push(c)));
                if r.len() == 1 {
                    assert(rp[0] == r[0].push(c));
                    assert(rp.skip(1) =~= Seq::<Seq<char>>::empty());
                    assert(seq![s[0]] + r[0].push(c) =~= (seq![s[0]] + r[0]).push(c));
                    assert(split_spec(s.push(c), sep) =~= split_spec(s, sep).drop_last().push(
                        split_spec(s, sep).last().push(c),
                    ));
                } else {
                    assert(rp[0] == r[0]);
                    assert(rp.skip(1) =~= r.skip(1).drop_last().push(r.last().push(c)));
                    assert(split_spec(s, sep).last() == r.last());
                    assert(split_spec(s.push(c), sep) =~= split_spec(s, sep).drop_last().push(
                        split_spec(s, sep).last().push(c),
                    ));
                }
            }
        }
    }
}

/// Relies on String::push: appends one character at the end.
#[verifier::external_body]
pub(crate) fn push_char(s: &mut String, c: char)
    ensures
        final(s)@ == old(s)@.push(c),
{
    s.push(c)
}

/// The view of each piece, in order.
pub open spec fn pieces_view(v: Seq<String>) -> Seq<Seq<char>> {
    v.map_values(|x: String| x@)
}

/// Split `s` on the separator character `sep`, keeping empty pieces.
pub fn split_on(s: &str, sep: char) -> (r: Vec<String>)
    ensures
        pieces_view(r@) == split_spec(s@, sep),
        r@.len() >= 1,
{
    let len = s.unicode_len();
    let mut pieces: Vec<String> = Vec::new();
    let mut cur: String = String::new();
    let mut i: usize = 0;
    proof {
        assert(s@.take(0) =~= Seq::<char>::empty());
        assert(pieces_view(pieces@).push(cur@) =~= split_spec(s@.take(0), sep));
    }
    while i < len
        invariant
            i <= len,
            len == s@.len(),
            pieces_view(pieces@).push(cur@) == split_spec(s@.take(i as int), sep),
        decreases len - i,
    {
        let c = s.get_char(i);
        proof {
            assert(s@.take(i + 1) =~= s@.take(i as int).push(s@[i as int]));
            lemma_split_push(s@.take(i as int), sep, c);
        }
        if c == sep {
            let ghost old_pieces = pieces@;
            let ghost old_cur = cur@;
            pieces.push(cur);
            cur = String::new();
            proof {
                assert(pieces_view(pieces@) =~= pieces_view(old_pieces).push(old_cur));
                assert(pieces_view(pieces@).push(cur@) =~= split_spec(s@.take(i + 1), sep));
            }
        } else {
            let ghost t = split_spec(s@.take(i as int), sep);
            push_char(&mut cur, c);
            proof {
                assert(t.drop_last() =~= pieces_view(pieces@));
                assert(pieces_view(pieces@).push(cur@) =~= t.drop_last().push(t.last().push(c)));
            }
        }
        i = i + 1;
    }
    proof {
        assert(s@.take(len as int) =~= s@);
    }
    let ghost old_pieces = pieces@;
    let ghost old_cur = cur@;
    pieces.push(cur);
    proof {
        assert(pieces_view(pieces@) =~= pieces_view(old_pieces).push(old_cur));
    }
    pieces
}

} // verus!
