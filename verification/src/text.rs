//! Strings as sequences of characters: comparing, searching, splitting and
//! joining them.

use vstd::prelude::*;

verus! {

/// `String::push` appends the given character to the end of the string.
pub assume_specification[ String::push ](s: &mut String, ch: char)
    ensures
        final(s)@ == old(s)@.push(ch),
;

/// The texts that a list of strings holds.
pub open spec fn texts(list: Seq<String>) -> Seq<Seq<char>> {
    Seq::new(list.len(), |i: int| list[i]@)
}

/// The text that an optional string holds.
pub open spec fn text_in(value: Option<String>) -> Option<Seq<char>> {
    match value {
        Some(s) => Some(s@),
        None => None,
    }
}

/// The characters of `s` as a vector.
pub fn chars_of(s: &str) -> (r: Vec<char>)
    ensures
        r@ == s@,
{
    let mut r: Vec<char> = Vec::new();
    for c in it: s.chars()
        invariant
            it.seq() == s@,
            r@ == s@.take(it.index() as int),
    {
        r.push(c);
    }
    assert(s@.take(s@.len() as int) == s@);
    r
}

/// The strings of `list` from the position `from` on.
pub fn tail_of(list: &[String], from: usize) -> (r: Vec<String>)
    requires
        from <= list@.len(),
    ensures
        texts(r@) == texts(list@).skip(from as int),
{
    let mut r: Vec<String> = Vec::new();
    let mut i: usize = from;
    while i < list.len()
        invariant
            from <= i <= list@.len(),
            texts(r@) == texts(list@).subrange(from as int, i as int),
        decreases list@.len() - i,
    {
        let ghost before = texts(r@);
        r.push(list[i].clone());
        assert(texts(r@) == before.push(list@[i as int]@));
        i += 1;
    }
    assert(texts(list@).subrange(from as int, i as int) == texts(list@).skip(from as int));
    r
}

/// Whether two strings hold the same text.
pub fn same(a: &str, b: &str) -> (r: bool)
    ensures
        r == (a@ == b@),
{
    let mut left = a.chars();
    let mut right = b.chars();
    let ghost mut i: int = 0;
    assert(a@.skip(0) == a@);
    assert(b@.skip(0) == b@);
    loop
        invariant
            0 <= i <= a@.len(),
            i <= b@.len(),
            vstd::std_specs::iter::IteratorSpec::remaining(&left) == a@.skip(i),
            vstd::std_specs::iter::IteratorSpec::remaining(&right) == b@.skip(i),
            a@.take(i) == b@.take(i),
        decreases a@.len() - i,
    {
        let x = left.next();
        let y = right.next();
        match (x, y) {
            (None, None) => {
                assert(a@.take(i) == a@);
                assert(b@.take(i) == b@);
                return true;
            },
            (Some(p), Some(q)) => {
                if p != q {
                    assert(a@[i] == p && b@[i] == q);
                    return false;
                }
                proof {
                    assert(a@.take(i + 1) == a@.take(i).push(p));
                    assert(b@.take(i + 1) == b@.take(i).push(q));
                    assert(a@.skip(i).drop_first() == a@.skip(i + 1));
                    assert(b@.skip(i).drop_first() == b@.skip(i + 1));
                    i = i + 1;
                }
            },
            _ => {
                return false;
            },
        }
    }
}

/// Where `c` first stands in `s`, or the length of `s` where it does not.
pub open spec fn first_of(s: Seq<char>, c: char) -> int
    decreases s.len(),
{
    if s.len() == 0 || s[0] == c {
        0
    } else {
        1 + first_of(s.drop_first(), c)
    }
}

/// Where `c` last stands in `s`, or -1 where it does not.
pub open spec fn last_of(s: Seq<char>, c: char) -> int
    decreases s.len(),
{
    if s.len() == 0 {
        -1
    } else if s.last() == c {
        s.len() - 1
    } else {
        last_of(s.drop_last(), c)
    }
}

/// The pieces of `s` between the occurrences of `c`: one more than there are
/// occurrences.
pub open spec fn split(s: Seq<char>, c: char) -> Seq<Seq<char>>
    decreases s.len(),
{
    if s.len() == 0 {
        seq![Seq::<char>::empty()]
    } else {
        let pieces = split(s.drop_last(), c);
        if s.last() == c {
            pieces.push(Seq::<char>::empty())
        } else {
            pieces.drop_last().push(pieces.last().push(s.last()))
        }
    }
}

/// The pieces one after another, with `c` between them.
pub open spec fn join(pieces: Seq<Seq<char>>, c: char) -> Seq<char>
    decreases pieces.len(),
{
    if pieces.len() == 0 {
        Seq::<char>::empty()
    } else if pieces.len() == 1 {
        pieces[0]
    } else {
        join(pieces.drop_last(), c).push(c) + pieces.last()
    }
}

/// Whether the first character of `s` is `c`.
pub open spec fn begins_with(s: Seq<char>, c: char) -> bool {
    s.len() > 0 && s[0] == c
}

pub proof fn lemma_first_of(s: Seq<char>, c: char)
    ensures
        0 <= first_of(s, c) <= s.len(),
        first_of(s, c) < s.len() ==> s[first_of(s, c)] == c,
        forall|i: int| 0 <= i < first_of(s, c) ==> s[i] != c,
    decreases s.len(),
{
    if s.len() > 0 && s[0] != c {
        lemma_first_of(s.drop_first(), c);
        assert forall|i: int| 0 <= i < first_of(s, c) implies s[i] != c by {
            if i > 0 {
                assert(s.drop_first()[i - 1] == s[i]);
            }
        }
    }
}

pub proof fn lemma_first_of_is(s: Seq<char>, c: char, k: int)
    requires
        0 <= k <= s.len(),
        k < s.len() ==> s[k] == c,
        forall|i: int| 0 <= i < k ==> s[i] != c,
    ensures
        first_of(s, c) == k,
{
    lemma_first_of(s, c);
}

pub proof fn lemma_last_of(s: Seq<char>, c: char)
    ensures
        -1 <= last_of(s, c) < s.len(),
        last_of(s, c) >= 0 ==> s[last_of(s, c)] == c,
        forall|i: int| last_of(s, c) < i < s.len() ==> s[i] != c,
    decreases s.len(),
{
    if s.len() > 0 && s.last() != c {
        lemma_last_of(s.drop_last(), c);
        assert forall|i: int| last_of(s, c) < i < s.len() implies s[i] != c by {
            if i < s.len() - 1 {
                assert(s.drop_last()[i] == s[i]);
            }
        }
    }
}

pub proof fn lemma_last_of_is(s: Seq<char>, c: char, k: int)
    requires
        -1 <= k < s.len(),
        k >= 0 ==> s[k] == c,
        forall|i: int| k < i < s.len() ==> s[i] != c,
    ensures
        last_of(s, c) == k,
{
    lemma_last_of(s, c);
}

/// Where `c` first stands in `cs`, or the length of `cs`.
pub fn find_first(cs: &[char], c: char) -> (r: usize)
    ensures
        r == first_of(cs@, c),
{
    let mut i: usize = 0;
    while i < cs.len()
        invariant
            i <= cs@.len(),
            forall|j: int| 0 <= j < i ==> cs@[j] != c,
        decreases cs@.len() - i,
    {
        if cs[i] == c {
            proof {
                lemma_first_of_is(cs@, c, i as int);
            }
            return i;
        }
        i += 1;
    }
    proof {
        lemma_first_of_is(cs@, c, i as int);
    }
    i
}

/// Where `c` last stands in `cs`.
pub fn find_last(cs: &[char], c: char) -> (r: Option<usize>)
    ensures
        match r {
            Some(k) => k == last_of(cs@, c),
            None => last_of(cs@, c) == -1,
        },
{
    let mut i: usize = cs.len();
    while i > 0
        invariant
            i <= cs@.len(),
            forall|j: int| i <= j < cs@.len() ==> cs@[j] != c,
        decreases i,
    {
        i -= 1;
        if cs[i] == c {
            proof {
                lemma_last_of_is(cs@, c, i as int);
            }
            return Some(i);
        }
    }
    proof {
        lemma_last_of_is(cs@, c, -1);
    }
    None
}

/// Whether the first character of `s` is `c`.
pub fn starts_with(s: &str, c: char) -> (r: bool)
    ensures
        r == begins_with(s@, c),
{
    match s.chars().next() {
        Some(first) => first == c,
        None => false,
    }
}

/// Splits `s` at each `c`.
pub fn split_at(s: &str, c: char) -> (r: Vec<String>)
    ensures
        texts(r@) == split(s@, c),
{
    let cs = chars_of(s);
    let mut pieces: Vec<String> = Vec::new();
    let mut piece = String::new();
    let mut i: usize = 0;
    assert(split(s@.take(0), c) == texts(pieces@).push(piece@));
    while i < cs.len()
        invariant
            i <= cs.len(),
            cs@ == s@,
            split(s@.take(i as int), c) == texts(pieces@).push(piece@),
        decreases cs.len() - i,
    {
        let ghost upto = s@.take(i + 1);
        assert(upto.drop_last() == s@.take(i as int));
        assert(upto.last() == s@[i as int]);
        let ghost before = pieces@;
        let ghost last = piece@;
        assert(texts(before).push(last).drop_last() == texts(before));
        if cs[i] == c {
            pieces.push(piece);
            piece = String::new();
            assert(texts(pieces@) == texts(before).push(last));
        } else {
            piece.push(cs[i]);
        }
        i += 1;
    }
    let ghost before = pieces@;
    let ghost last = piece@;
    assert(s@.take(i as int) == s@);
    pieces.push(piece);
    assert(texts(pieces@) == texts(before).push(last));
    pieces
}

/// Joins the pieces, with `c` between them.
pub fn join_with(pieces: &Vec<String>, c: char) -> (r: String)
    ensures
        r@ == join(texts(pieces@), c),
{
    let mut r = String::new();
    let mut i: usize = 0;
    while i < pieces.len()
        invariant
            i <= pieces.len(),
            r@ == join(texts(pieces@).take(i as int), c),
        decreases pieces.len() - i,
    {
        let ghost upto = texts(pieces@).take(i + 1);
        assert(upto.drop_last() == texts(pieces@).take(i as int));
        assert(upto.last() == pieces@[i as int]@);
        if i > 0 {
            r.push(c);
        }
        r.append(pieces[i].as_str());
        i += 1;
    }
    assert(texts(pieces@).take(i as int) == texts(pieces@));
    r
}

/// Whether `c` does not occur in `s`.
pub open spec fn is_free_of(s: Seq<char>, c: char) -> bool {
    forall|i: int| 0 <= i < s.len() ==> s[i] != c
}

/// Whether `c` occurs in none of `pieces`.
pub open spec fn all_free_of(pieces: Seq<Seq<char>>, c: char) -> bool {
    forall|i: int| 0 <= i < pieces.len() ==> is_free_of(#[trigger] pieces[i], c)
}

/// The pieces of a split text do not hold what it was split at.
pub proof fn lemma_split_pieces(s: Seq<char>, c: char)
    ensures
        split(s, c).len() > 0,
        all_free_of(split(s, c), c),
    decreases s.len(),
{
    if s.len() > 0 {
        let pieces = split(s.drop_last(), c);
        lemma_split_pieces(s.drop_last(), c);
        assert(is_free_of(pieces.last(), c));
        assert forall|i: int| 0 <= i < split(s, c).len() implies is_free_of(
            #[trigger] split(s, c)[i],
            c,
        ) by {
            if i < pieces.len() - 1 || s.last() == c && i < pieces.len() {
                assert(split(s, c)[i] == pieces[i]);
            }
        }
    }
}

/// Joining what a text was split into gives the text back.
pub proof fn law_split_join(s: Seq<char>, c: char)
    ensures
        join(split(s, c), c) == s,
    decreases s.len(),
{
    if s.len() == 0 {
        assert(join(split(s, c), c) == s);
    } else {
        let init = s.drop_last();
        let pieces = split(init, c);
        lemma_split_pieces(init, c);
        law_split_join(init, c);
        assert(init.push(s.last()) == s);
        if s.last() == c {
            assert(pieces.push(Seq::<char>::empty()).drop_last() == pieces);
            assert(join(split(s, c), c) == s);
        } else {
            let longer = pieces.drop_last().push(pieces.last().push(s.last()));
            assert(longer.drop_last() == pieces.drop_last());
            assert(join(longer, c) == join(pieces, c).push(s.last()));
        }
    }
}

/// Text without `c` at the end of a text lengthens its last piece.
pub proof fn lemma_split_append(s: Seq<char>, piece: Seq<char>, c: char)
    requires
        is_free_of(piece, c),
    ensures
        split(s + piece, c) == split(s, c).drop_last().push(split(s, c).last() + piece),
    decreases piece.len(),
{
    lemma_split_pieces(s, c);
    let pieces = split(s, c);
    if piece.len() == 0 {
        assert(s + piece == s);
        assert(pieces.last() + piece == pieces.last());
        assert(pieces.drop_last().push(pieces.last()) == pieces);
    } else {
        let whole = s + piece;
        let init = piece.drop_last();
        assert(whole.drop_last() == s + init);
        lemma_split_append(s, init, c);
        let before = pieces.drop_last().push(pieces.last() + init);
        assert(before.drop_last() == pieces.drop_last());
        assert((pieces.last() + init).push(piece.last()) == pieces.last() + piece);
        assert(whole.last() == piece.last());
    }
}

/// A further `c` and text without `c` make a further piece.
pub proof fn lemma_split_next(s: Seq<char>, piece: Seq<char>, c: char)
    requires
        is_free_of(piece, c),
    ensures
        split(s.push(c) + piece, c) == split(s, c).push(piece),
{
    let longer = s.push(c);
    assert(longer.drop_last() == s);
    assert(split(longer, c) == split(s, c).push(Seq::<char>::empty()));
    lemma_split_append(longer, piece, c);
    assert(split(longer, c).drop_last() == split(s, c));
    assert(Seq::<char>::empty() + piece == piece);
}

/// Splitting joined pieces gives the pieces back, where none of them holds
/// what they are joined with.
pub proof fn law_join_split(pieces: Seq<Seq<char>>, c: char)
    requires
        pieces.len() > 0,
        all_free_of(pieces, c),
    ensures
        split(join(pieces, c), c) == pieces,
    decreases pieces.len(),
{
    assert(is_free_of(pieces.last(), c));
    if pieces.len() == 1 {
        let empty = Seq::<char>::empty();
        lemma_split_append(empty, pieces[0], c);
        assert(empty + pieces[0] == pieces[0]);
        assert(split(empty, c) == seq![empty]);
        assert(split(pieces[0], c) == pieces);
    } else {
        let init = pieces.drop_last();
        assert forall|i: int| 0 <= i < init.len() implies is_free_of(#[trigger] init[i], c) by {
            assert(init[i] == pieces[i]);
        }
        law_join_split(init, c);
        lemma_split_next(join(init, c), pieces.last(), c);
        assert(init.push(pieces.last()) == pieces);
    }
}

/// A first piece stands, with `c`, before the others.
pub proof fn lemma_join_first(first: Seq<char>, pieces: Seq<Seq<char>>, c: char)
    requires
        pieces.len() > 0,
    ensures
        join(seq![first] + pieces, c) == first.push(c) + join(pieces, c),
    decreases pieces.len(),
{
    let all = seq![first] + pieces;
    assert(all.drop_last() == seq![first] + pieces.drop_last());
    assert(all.last() == pieces.last());
    if pieces.len() == 1 {
        assert(all.drop_last() == seq![first]);
        assert(join(seq![first], c) == first);
    } else {
        lemma_join_first(first, pieces.drop_last(), c);
        assert(join(all, c) == first.push(c) + join(pieces, c));
    }
}

} // verus!
