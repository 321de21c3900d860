//! Text utilities over character sequences: equality, prefixes, and
//! splitting on a separator, with the algebra the codec proofs rest on.

use vstd::prelude::*;

verus! {

/// `s` contains no occurrence of `c`.
pub open spec fn has_no(s: Seq<char>, c: char) -> bool {
    forall|i: int| 0 <= i < s.len() ==> #[trigger] s[i] != c
}

/// `t` is a prefix of `s`.
pub open spec fn has_prefix(s: Seq<char>, t: Seq<char>) -> bool {
    s.len() >= t.len() && s.subrange(0, t.len() as int) == t
}

/// Splitting on a separator: the pieces between occurrences, one
/// (possibly empty) piece more than there are separators.
pub open spec fn split_on(s: Seq<char>, sep: char) -> Seq<Seq<char>>
    decreases s.len(),
{
    if s.len() == 0 {
        seq![Seq::<char>::empty()]
    } else if s[0] == sep {
        seq![Seq::<char>::empty()] + split_on(s.subrange(1, s.len() as int), sep)
    } else {
        let rest = split_on(s.subrange(1, s.len() as int), sep);
        rest.update(0, seq![s[0]] + rest[0])
    }
}

/// A split always yields at least one piece.
pub proof fn lemma_split_on_len(s: Seq<char>, sep: char)
    ensures
        split_on(s, sep).len() >= 1,
    decreases s.len(),
{
    if s.len() > 0 {
        lemma_split_on_len(s.subrange(1, s.len() as int), sep);
    }
}

/// A separator-free string splits into itself alone.
pub proof fn lemma_split_no_sep(s: Seq<char>, sep: char)
    requires
        has_no(s, sep),
    ensures
        split_on(s, sep) == seq![s],
    decreases s.len(),
{
    if s.len() == 0 {
        assert(s =~= Seq::<char>::empty());
    } else {
        let tail = s.subrange(1, s.len() as int);
        assert(has_no(tail, sep)) by {
            assert(forall|i: int| 0 <= i < tail.len() ==> tail[i] == s[i + 1]);
        }
        lemma_split_no_sep(tail, sep);
        assert(seq![s[0]] + tail =~= s);
        assert(split_on(s, sep) =~= seq![s]);
    }
}

/// Splitting a string with a separator in the middle splits the parts
/// around it independently.
pub proof fn lemma_split_concat(x: Seq<char>, y: Seq<char>, sep: char)
    ensures
        split_on(x + seq![sep] + y, sep) == split_on(x, sep) + split_on(y, sep),
    decreases x.len(),
{
    let s = x + seq![sep] + y;
    if x.len() == 0 {
        assert(s =~= seq![sep] + y);
        assert(s[0] == sep);
        assert(s.subrange(1, s.len() as int) =~= y);
        assert(split_on(s, sep) =~= split_on(x, sep) + split_on(y, sep));
    } else {
        let xt = x.subrange(1, x.len() as int);
        assert(s.subrange(1, s.len() as int) =~= xt + seq![sep] + y);
        lemma_split_concat(xt, y, sep);
        lemma_split_on_len(xt, sep);
        lemma_split_on_len(y, sep);
        if x[0] == sep {
            assert(s[0] == sep);
            assert(split_on(s, sep) =~= split_on(x, sep) + split_on(y, sep));
        } else {
            assert(s[0] == x[0]);
            let rest_s = split_on(xt, sep) + split_on(y, sep);
            let rest_x = split_on(xt, sep);
            assert(rest_s[0] == rest_x[0]);
            assert(split_on(s, sep) == rest_s.update(0, seq![x[0]] + rest_s[0]));
            assert(split_on(x, sep) == rest_x.update(0, seq![x[0]] + rest_x[0]));
            assert(rest_s.update(0, seq![x[0]] + rest_s[0]) =~= rest_x.update(
                0,
                seq![x[0]] + rest_x[0],
            ) + split_on(y, sep));
        }
    }
}

/// Where a split has at least two pieces, the string starts with the
/// first piece, a separator follows it, and the rest of the string
/// splits into the remaining pieces.
pub proof fn lemma_split_structure(s: Seq<char>, sep: char)
    requires
        split_on(s, sep).len() >= 2,
    ensures
        split_on(s, sep)[0].len() < s.len(),
        s[split_on(s, sep)[0].len() as int] == sep,
        split_on(s, sep)[0] == s.subrange(0, split_on(s, sep)[0].len() as int),
        has_no(split_on(s, sep)[0], sep),
        split_on(s.subrange(split_on(s, sep)[0].len() as int + 1, s.len() as int), sep) == split_on(
            s,
            sep,
        ).drop_first(),
    decreases s.len(),
{
    let parts = split_on(s, sep);
    if s[0] == sep {
        assert(parts[0] =~= Seq::<char>::empty());
        assert(s.subrange(1, s.len() as int) =~= s.subrange(parts[0].len() as int + 1, s.len() as int));
        assert(split_on(s.subrange(1, s.len() as int), sep) =~= parts.drop_first());
        assert(parts[0] =~= s.subrange(0, 0));
    } else {
        let tail = s.subrange(1, s.len() as int);
        let rest = split_on(tail, sep);
        lemma_split_on_len(tail, sep);
        assert(parts.len() == rest.len());
        lemma_split_structure(tail, sep);
        assert(parts[0] == seq![s[0]] + rest[0]);
        assert(parts[0].len() == 1 + rest[0].len());
        assert(s[parts[0].len() as int] == tail[rest[0].len() as int]);
        assert(parts[0] =~= s.subrange(0, parts[0].len() as int)) by {
            assert(rest[0] == tail.subrange(0, rest[0].len() as int));
            assert(forall|i: int|
                0 <= i < parts[0].len() ==> #[trigger] parts[0][i] == s[i]);
        }
        assert(has_no(parts[0], sep)) by {
            assert(forall|i: int|
                1 <= i < parts[0].len() ==> #[trigger] parts[0][i] == rest[0][i - 1]);
        }
        assert(s.subrange(parts[0].len() as int + 1, s.len() as int) =~= tail.subrange(
            rest[0].len() as int + 1,
            tail.len() as int,
        ));
        assert(parts.drop_first() =~= rest.drop_first());
    }
}

/// Absence of a character carries over concatenation.
pub proof fn lemma_has_no_concat(x: Seq<char>, y: Seq<char>, c: char)
    requires
        has_no(x, c),
        has_no(y, c),
    ensures
        has_no(x + y, c),
{
    assert forall|i: int| 0 <= i < (x + y).len() implies (x + y)[i] != c by {
        if i < x.len() {
            assert((x + y)[i] == x[i]);
        } else {
            assert((x + y)[i] == y[i - x.len()]);
        }
    }
}

/// A concatenation starts with its first operand.
pub proof fn lemma_prefix_of_concat(x: Seq<char>, y: Seq<char>)
    ensures
        has_prefix(x + y, x),
{
    assert((x + y).subrange(0, x.len() as int) =~= x);
}

/// Character-by-character string equality.
pub fn str_eq(a: &str, b: &str) -> (r: bool)
    ensures
        r == (a@ == b@),
{
    let la = a.unicode_len();
    let lb = b.unicode_len();
    if la != lb {
        return false;
    }
    let mut i: usize = 0;
    while i < la
        invariant
            la == a@.len() == b@.len(),
            0 <= i <= la,
            forall|j: int| 0 <= j < i ==> a@[j] == b@[j],
        decreases la - i,
    {
        if a.get_char(i) != b.get_char(i) {
            return false;
        }
        i += 1;
    }
    proof {
        assert(a@ =~= b@);
    }
    true
}

/// Whether `t` is a prefix of `s`, character by character.
pub fn starts_with_str(s: &str, t: &str) -> (r: bool)
    ensures
        r == has_prefix(s@, t@),
{
    let ls = s.unicode_len();
    let lt = t.unicode_len();
    if ls < lt {
        return false;
    }
    let mut i: usize = 0;
    while i < lt
        invariant
            ls == s@.len(),
            lt == t@.len(),
            lt <= ls,
            0 <= i <= lt,
            forall|j: int| 0 <= j < i ==> s@[j] == t@[j],
        decreases lt - i,
    {
        if s.get_char(i) != t.get_char(i) {
            proof {
                assert(s@.subrange(0, lt as int)[i as int] != t@[i as int]);
            }
            return false;
        }
        i += 1;
    }
    proof {
        assert(s@.subrange(0, lt as int) =~= t@);
    }
    true
}

/// First occurrence of `c` in `s`, if any.
pub fn find_char(s: &str, c: char) -> (r: Option<usize>)
    ensures
        match r {
            Some(k) => k < s@.len() && s@[k as int] == c && (forall|j: int|
                0 <= j < k ==> s@[j] != c),
            None => has_no(s@, c),
        },
{
    let len = s.unicode_len();
    let mut i: usize = 0;
    while i < len
        invariant
            len == s@.len(),
            0 <= i <= len,
            forall|j: int| 0 <= j < i ==> s@[j] != c,
        decreases len - i,
    {
        if s.get_char(i) == c {
            return Some(i);
        }
        i += 1;
    }
    None
}

/// Splits `s` on a separator; the pieces, in order.
pub fn split_str<'a>(s: &'a str, sep: char) -> (r: Vec<&'a str>)
    ensures
        r@.len() == split_on(s@, sep).len(),
        forall|i: int| 0 <= i < r@.len() ==> #[trigger] r@[i]@ == split_on(s@, sep)[i],
    decreases s@.len(),
{
    match find_char(s, sep) {
        None => {
            proof {
                lemma_split_no_sep(s@, sep);
            }
            let mut v: Vec<&'a str> = Vec::new();
            v.push(s);
            v
        },
        Some(k) => {
            let len = s.unicode_len();
            let piece = s.substring_char(0, k);
            let rest = s.substring_char(k + 1, len);
            proof {
                assert(rest@.len() < s@.len());
            }
            let mut v = split_str(rest, sep);
            proof {
                assert(s@ =~= piece@ + seq![sep] + rest@);
                lemma_split_concat(piece@, rest@, sep);
                lemma_split_no_sep(piece@, sep);
                assert(split_on(s@, sep) == seq![piece@] + split_on(rest@, sep));
            }
            v.insert(0, piece);
            proof {
                assert(forall|i: int|
                    1 <= i < v@.len() ==> #[trigger] v@[i]@ == split_on(rest@, sep)[i - 1]);
                assert(forall|i: int|
                    1 <= i < v@.len() ==> (seq![piece@] + split_on(rest@, sep))[i] == split_on(
                        rest@,
                        sep,
                    )[i - 1]);
            }
            v
        },
    }
}

/// The rest of `s` after its first piece and the separator that ends it.
pub fn rest_after_piece<'a>(s: &'a str, sep: char) -> (r: &'a str)
    requires
        split_on(s@, sep).len() >= 2,
    ensures
        r@ == s@.subrange(split_on(s@, sep)[0].len() as int + 1, s@.len() as int),
{
    proof {
        lemma_split_structure(s@, sep);
    }
    let len = s.unicode_len();
    match find_char(s, sep) {
        Some(k) => {
            proof {
                let first = split_on(s@, sep)[0];
                assert(forall|j: int| 0 <= j < first.len() ==> s@[j] == #[trigger] first[j]);
                if k < first.len() {
                    assert(first[k as int] != sep);
                }
                assert(k == first.len());
            }
            s.substring_char(k + 1, len)
        },
        None => {
            proof {
                let first = split_on(s@, sep)[0];
                assert(s@[first.len() as int] == sep);
                assert(false);
            }
            s
        },
    }
}

} // verus!
