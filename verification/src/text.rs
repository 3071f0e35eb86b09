//! Character-level text utilities: conversions between `String` and
//! `Vec<char>`, substring search, splitting and joining.

use vstd::prelude::*;

verus! {

/// Appends one character to a `String`.
///
/// Relies on `String::push` from std: appends the given `char` to the end of
/// the string.
#[verifier::external_body]
pub(crate) fn push_char(s: &mut String, c: char)
    ensures
        final(s)@ == old(s)@.push(c),
{
    s.push(c);
}

/// Collects the characters of a string slice into a vector.
pub fn to_chars(s: &str) -> (r: Vec<char>)
    ensures
        r@ == s@,
{
    let n = s.unicode_len();
    let mut r: Vec<char> = Vec::new();
    let mut i: usize = 0;
    while i < n
        invariant
            n == s@.len(),
            0 <= i <= n,
            r@ == s@.take(i as int),
        decreases n - i,
    {
        r.push(s.get_char(i));
        proof {
            assert(s@.take(i + 1) =~= s@.take(i as int).push(s@[i as int]));
        }
        i = i + 1;
    }
    proof {
        assert(s@.take(n as int) =~= s@);
    }
    r
}

/// Builds a `String` out of a vector of characters.
pub fn from_chars(v: &Vec<char>) -> (r: String)
    ensures
        r@ == v@,
{
    let mut r = String::new();
    let mut i: usize = 0;
    while i < v.len()
        invariant
            0 <= i <= v@.len(),
            r@ == v@.take(i as int),
        decreases v@.len() - i,
    {
        push_char(&mut r, v[i]);
        proof {
            assert(v@.take(i + 1) =~= v@.take(i as int).push(v@[i as int]));
        }
        i = i + 1;
    }
    proof {
        assert(v@.take(v@.len() as int) =~= v@);
    }
    r
}

/// The needle `nee` occurs in `hay` starting at position `i`.
pub open spec fn is_match_at(hay: Seq<char>, nee: Seq<char>, i: int) -> bool {
    0 <= i && i + nee.len() <= hay.len() && hay.subrange(i, i + nee.len()) == nee
}

/// The needle `nee` occurs somewhere in `hay`.
pub open spec fn contains_sub(hay: Seq<char>, nee: Seq<char>) -> bool {
    exists|i: int| is_match_at(hay, nee, i)
}

/// The position of the first occurrence of `nee` in `hay` at or after `i`,
/// or -1 if there is none.
pub open spec fn first_match_from(hay: Seq<char>, nee: Seq<char>, i: int) -> int
    decreases hay.len() + 1 - i,
{
    if i + nee.len() > hay.len() {
        -1
    } else if is_match_at(hay, nee, i) {
        i
    } else {
        first_match_from(hay, nee, i + 1)
    }
}

/// What `first_match_from` returns: either -1 and no match at or after `i`,
/// or the least match position at or after `i`.
pub proof fn lemma_first_match_from(hay: Seq<char>, nee: Seq<char>, i: int)
    requires
        0 <= i,
    ensures
        first_match_from(hay, nee, i) == -1 ==> forall|j: int| i <= j ==> !is_match_at(hay, nee, j),
        first_match_from(hay, nee, i) != -1 ==> {
            let m = first_match_from(hay, nee, i);
            &&& i <= m
            &&& is_match_at(hay, nee, m)
            &&& forall|j: int| i <= j < m ==> !is_match_at(hay, nee, j)
        },
    decreases hay.len() + 1 - i,
{
    if i + nee.len() > hay.len() {
        assert forall|j: int| i <= j implies !is_match_at(hay, nee, j) by {
            assert(j + nee.len() > hay.len());
        }
    } else if is_match_at(hay, nee, i) {
    } else {
        lemma_first_match_from(hay, nee, i + 1);
    }
}

/// Compares `hay[i .. i + nee.len()]` with `nee`.
fn eq_at(hay: &Vec<char>, nee: &Vec<char>, i: usize) -> (r: bool)
    requires
        i + nee@.len() <= hay@.len(),
    ensures
        r == is_match_at(hay@, nee@, i as int),
{
    let hlen = hay.len();
    let nlen = nee.len();
    let mut k: usize = 0;
    while k < nlen
        invariant
            hlen == hay@.len(),
            nlen == nee@.len(),
            i + nlen <= hlen,
            0 <= k <= nlen,
            forall|j: int| 0 <= j < k ==> hay@[i + j] == nee@[j],
        decreases nlen - k,
    {
        if hay[i + k] != nee[k] {
            proof {
                assert(hay@.subrange(i as int, i + nee@.len())[k as int] == hay@[i + k]);
            }
            return false;
        }
        k = k + 1;
    }
    proof {
        assert(hay@.subrange(i as int, i + nee@.len()) =~= nee@);
    }
    true
}

/// Finds the first occurrence of `nee` in `hay`, if any.
pub fn find_sub(hay: &Vec<char>, nee: &Vec<char>) -> (r: Option<usize>)
    ensures
        match r {
            Some(m) => m == first_match_from(hay@, nee@, 0),
            None => first_match_from(hay@, nee@, 0) == -1,
        },
{
    let hlen = hay.len();
    let nlen = nee.len();
    if nlen > hlen {
        return None;
    }
    if nlen == 0 {
        proof {
            assert(hay@.subrange(0, 0) =~= nee@);
        }
        return Some(0);
    }
    let mut i: usize = 0;
    while i <= hlen - nlen
        invariant
            hlen == hay@.len(),
            nlen == nee@.len(),
            1 <= nlen <= hlen,
            0 <= i <= hlen - nlen + 1,
            forall|j: int| 0 <= j < i ==> !is_match_at(hay@, nee@, j),
            first_match_from(hay@, nee@, 0) == first_match_from(hay@, nee@, i as int),
        decreases hlen - i,
    {
        if eq_at(hay, nee, i) {
            return Some(i);
        }
        i = i + 1;
    }
    proof {
        assert(i + nee@.len() > hay@.len());
    }
    None
}

/// Returns whether `nee` occurs in `hay`.
pub fn contains_chars(hay: &Vec<char>, nee: &Vec<char>) -> (r: bool)
    ensures
        r == contains_sub(hay@, nee@),
{
    let found = find_sub(hay, nee);
    proof {
        lemma_first_match_from(hay@, nee@, 0);
        if contains_sub(hay@, nee@) {
            let w = choose|i: int| is_match_at(hay@, nee@, i);
            assert(0 <= w);
        }
    }
    found.is_some()
}

/// The position of the first occurrence of character `c` in `s` at or after
/// `i`, or -1 if there is none.
pub open spec fn first_char_from(s: Seq<char>, c: char, i: int) -> int
    decreases s.len() - i,
{
    if i >= s.len() {
        -1
    } else if s[i] == c {
        i
    } else {
        first_char_from(s, c, i + 1)
    }
}

/// What `first_char_from` returns: either -1 and no occurrence at or after
/// `i`, or the least occurrence position at or after `i`.
pub proof fn lemma_first_char_from(s: Seq<char>, c: char, i: int)
    requires
        0 <= i,
    ensures
        first_char_from(s, c, i) == -1 ==> forall|j: int| i <= j < s.len() ==> s[j] != c,
        first_char_from(s, c, i) != -1 ==> {
            let m = first_char_from(s, c, i);
            &&& i <= m < s.len()
            &&& s[m] == c
            &&& forall|j: int| i <= j < m ==> s[j] != c
        },
    decreases s.len() - i,
{
    if i >= s.len() {
    } else if s[i] == c {
    } else {
        lemma_first_char_from(s, c, i + 1);
    }
}

/// Finds the first occurrence of character `c` in `s` at or after `start`.
pub fn find_char_from(s: &Vec<char>, c: char, start: usize) -> (r: Option<usize>)
    ensures
        match r {
            Some(m) => m == first_char_from(s@, c, start as int),
            None => first_char_from(s@, c, start as int) == -1,
        },
{
    let mut i: usize = start;
    while i < s.len()
        invariant
            start <= i,
            first_char_from(s@, c, start as int) == first_char_from(s@, c, i as int),
        decreases s@.len() - i,
    {
        if s[i] == c {
            return Some(i);
        }
        i = i + 1;
    }
    None
}

/// Returns whether `hay` starts with `nee`.
pub fn starts_with_chars(hay: &Vec<char>, nee: &Vec<char>) -> (r: bool)
    ensures
        r == is_match_at(hay@, nee@, 0),
{
    if nee.len() > hay.len() {
        return false;
    }
    eq_at(hay, nee, 0)
}

/// Copies the characters of `s` up to position `to`.
pub fn head_to(s: &Vec<char>, to: usize) -> (r: Vec<char>)
    requires
        to <= s@.len(),
    ensures
        r@ == s@.take(to as int),
{
    let mut r: Vec<char> = Vec::new();
    let mut i: usize = 0;
    while i < to
        invariant
            0 <= i <= to <= s@.len(),
            r@ == s@.subrange(0, i as int),
        decreases to - i,
    {
        r.push(s[i]);
        proof {
            assert(s@.subrange(0, i + 1) =~= s@.subrange(0, i as int).push(s@[i as int]));
        }
        i = i + 1;
    }
    proof {
        assert(s@.subrange(0, to as int) =~= s@.take(to as int));
    }
    r
}

/// Copies the characters of `s` from position `from` to the end.
pub fn tail_from(s: &Vec<char>, from: usize) -> (r: Vec<char>)
    requires
        from <= s@.len(),
    ensures
        r@ == s@.skip(from as int),
{
    let mut r: Vec<char> = Vec::new();
    let mut i: usize = from;
    while i < s.len()
        invariant
            from <= i <= s@.len(),
            r@ == s@.subrange(from as int, i as int),
        decreases s@.len() - i,
    {
        r.push(s[i]);
        proof {
            assert(s@.subrange(from as int, i + 1) =~= s@.subrange(from as int, i as int).push(
                s@[i as int],
            ));
        }
        i = i + 1;
    }
    proof {
        assert(s@.subrange(from as int, s@.len() as int) =~= s@.skip(from as int));
    }
    r
}

/// The pieces of `s` between occurrences of the separator `sep`.
///
/// Splitting always yields at least one piece; the empty sequence yields one
/// empty piece, and a separator at either end yields an empty piece there.
pub open spec fn split_on(s: Seq<char>, sep: char) -> Seq<Seq<char>>
    decreases s.len(),
{
    if s.len() == 0 {
        seq![Seq::<char>::empty()]
    } else if s[0] == sep {
        seq![Seq::<char>::empty()] + split_on(s.skip(1), sep)
    } else {
        let rest = split_on(s.skip(1), sep);
        seq![seq![s[0]] + rest[0]] + rest.skip(1)
    }
}

/// Splitting yields at least one piece.
pub proof fn lemma_split_on_nonempty(s: Seq<char>, sep: char)
    ensures
        split_on(s, sep).len() >= 1,
    decreases s.len(),
{
    if s.len() == 0 {
    } else {
        lemma_split_on_nonempty(s.skip(1), sep);
    }
}

/// A sequence without the separator splits into itself as the only piece.
pub proof fn lemma_split_on_no_sep(s: Seq<char>, sep: char)
    requires
        forall|k: int| 0 <= k < s.len() ==> s[k] != sep,
    ensures
        split_on(s, sep) =~= seq![s],
    decreases s.len(),
{
    if s.len() == 0 {
        assert(s =~= Seq::<char>::empty());
        assert(split_on(s, sep) =~= seq![s]);
    } else {
        assert(s[0] != sep);
        assert forall|k: int| 0 <= k < s.skip(1).len() implies s.skip(1)[k] != sep by {
            assert(s.skip(1)[k] == s[k + 1]);
        }
        lemma_split_on_no_sep(s.skip(1), sep);
        let rest = split_on(s.skip(1), sep);
        assert(rest[0] == s.skip(1));
        assert(rest.skip(1) =~= Seq::<Seq<char>>::empty());
        let whole = seq![seq![s[0]] + rest[0]] + rest.skip(1);
        assert(split_on(s, sep) == whole);
        assert(whole.len() == 1);
        assert(whole[0] == seq![s[0]] + rest[0]);
        assert(seq![s[0]] + s.skip(1) =~= s);
        assert(whole =~= seq![s]);
    }
}

/// A sequence containing the separator splits into at least two pieces.
pub proof fn lemma_split_on_two_pieces(s: Seq<char>, sep: char, j: int)
    requires
        0 <= j < s.len(),
        s[j] == sep,
    ensures
        split_on(s, sep).len() >= 2,
    decreases s.len(),
{
    if j == 0 {
        lemma_split_on_nonempty(s.skip(1), sep);
    } else {
        assert(s.skip(1)[j - 1] == s[j]);
        lemma_split_on_two_pieces(s.skip(1), sep, j - 1);
    }
}

/// The last piece of a split is the part after the last separator.
pub proof fn lemma_split_on_last(s: Seq<char>, sep: char, j: int)
    requires
        0 <= j < s.len(),
        s[j] == sep,
        forall|k: int| j < k < s.len() ==> s[k] != sep,
    ensures
        split_on(s, sep).last() == s.skip(j + 1),
    decreases s.len(),
{
    lemma_split_on_nonempty(s.skip(1), sep);
    if j == 0 {
        assert forall|k: int| 0 <= k < s.skip(1).len() implies s.skip(1)[k] != sep by {
            assert(s.skip(1)[k] == s[k + 1]);
        }
        lemma_split_on_no_sep(s.skip(1), sep);
        assert(split_on(s, sep).last() == s.skip(1));
    } else {
        assert(s.skip(1)[j - 1] == s[j]);
        assert forall|k: int| j - 1 < k < s.skip(1).len() implies s.skip(1)[k] != sep by {
            assert(s.skip(1)[k] == s[k + 1]);
        }
        lemma_split_on_last(s.skip(1), sep, j - 1);
        lemma_split_on_two_pieces(s.skip(1), sep, j - 1);
        assert(s.skip(1).skip(j) =~= s.skip(j + 1));
        let rest = split_on(s.skip(1), sep);
        if s[0] == sep {
            assert(split_on(s, sep).last() == rest.last());
        } else {
            let whole = seq![seq![s[0]] + rest[0]] + rest.skip(1);
            assert(split_on(s, sep) == whole);
            assert(whole.last() == rest.skip(1).last());
            assert(rest.skip(1).last() == rest.last());
        }
    }
}

/// The result of joining the pieces `parts` with the separator `sep` between
/// each pair of neighbours.
pub open spec fn join_with(parts: Seq<Seq<char>>, sep: Seq<char>) -> Seq<char>
    decreases parts.len(),
{
    if parts.len() == 0 {
        Seq::<char>::empty()
    } else if parts.len() == 1 {
        parts[0]
    } else {
        parts[0] + sep + join_with(parts.skip(1), sep)
    }
}

/// Joining after appending one piece appends a separator and that piece.
pub proof fn lemma_join_with_push(parts: Seq<Seq<char>>, p: Seq<char>, sep: Seq<char>)
    ensures
        parts.len() == 0 ==> join_with(parts.push(p), sep) == p,
        parts.len() > 0 ==> join_with(parts.push(p), sep) == join_with(parts, sep) + sep + p,
    decreases parts.len(),
{
    let q = parts.push(p);
    if parts.len() == 0 {
        assert(q.len() == 1 && q[0] == p);
    } else if parts.len() == 1 {
        assert(q.len() == 2);
        assert(q[0] == parts[0]);
        assert(q.skip(1) =~= seq![p]);
        assert(join_with(q.skip(1), sep) == p);
        assert(join_with(q, sep) == parts[0] + sep + p);
    } else {
        lemma_join_with_push(parts.skip(1), p, sep);
        assert(q.skip(1) =~= parts.skip(1).push(p));
        assert(join_with(q, sep) == q[0] + sep + join_with(q.skip(1), sep));
        assert(join_with(q, sep) == parts[0] + sep + (join_with(parts.skip(1), sep) + sep + p));
        assert(parts[0] + sep + (join_with(parts.skip(1), sep) + sep + p) =~= (parts[0] + sep
            + join_with(parts.skip(1), sep)) + sep + p);
    }
}

/// The views of a vector of strings.
pub open spec fn views_of(parts: Seq<String>) -> Seq<Seq<char>> {
    parts.map_values(|x: String| x@)
}

/// Joins the given pieces with the single-character separator `sep`.
pub fn join_strings(parts: &Vec<String>, sep: char) -> (r: String)
    ensures
        r@ == join_with(views_of(parts@), seq![sep]),
{
    let mut r = String::new();
    let mut i: usize = 0;
    while i < parts.len()
        invariant
            0 <= i <= parts@.len(),
            r@ == join_with(views_of(parts@).take(i as int), seq![sep]),
        decreases parts@.len() - i,
    {
        if i > 0 {
            push_char(&mut r, sep);
            proof {
                assert(r@ == join_with(views_of(parts@).take(i as int), seq![sep]) + seq![sep]);
            }
        }
        r.append(parts[i].as_str());
        proof {
            let vs = views_of(parts@);
            lemma_join_with_push(vs.take(i as int), vs[i as int], seq![sep]);
            assert(vs.take(i + 1) =~= vs.take(i as int).push(vs[i as int]));
        }
        i = i + 1;
    }
    proof {
        assert(views_of(parts@).take(parts@.len() as int) =~= views_of(parts@));
    }
    r
}

/// Joins the given pieces with the separator string `sep`.
pub fn join_strings_sep(parts: &Vec<String>, sep: &str) -> (r: String)
    ensures
        r@ == join_with(views_of(parts@), sep@),
{
    let mut r = String::new();
    let mut i: usize = 0;
    while i < parts.len()
        invariant
            0 <= i <= parts@.len(),
            r@ == join_with(views_of(parts@).take(i as int), sep@),
        decreases parts@.len() - i,
    {
        if i > 0 {
            r.append(sep);
        }
        r.append(parts[i].as_str());
        proof {
            let vs = views_of(parts@);
            lemma_join_with_push(vs.take(i as int), vs[i as int], sep@);
            assert(vs.take(i + 1) =~= vs.take(i as int).push(vs[i as int]));
        }
        i = i + 1;
    }
    proof {
        assert(views_of(parts@).take(parts@.len() as int) =~= views_of(parts@));
    }
    r
}

/// Splits `s` at each occurrence of the single-character separator `sep`.
pub fn split_string(s: &Vec<char>, sep: char) -> (r: Vec<String>)
    ensures
        views_of(r@) == split_on(s@, sep),
{
    let ghost full = s@;
    let mut out: Vec<String> = Vec::new();
    let mut cur: Vec<char> = Vec::new();
    let mut i: usize = 0;
    proof {
        assert(full.skip(0) =~= full);
        lemma_split_on_nonempty(full, sep);
        let pre = split_on(full, sep);
        assert(cur@ + pre[0] =~= pre[0]);
        assert(views_of(out@) + seq![pre[0]] + pre.skip(1) =~= pre);
    }
    while i < s.len()
        invariant
            0 <= i <= full.len(),
            s@ == full,
            split_on(full, sep) == views_of(out@) + seq![cur@ + split_on(full.skip(i as int), sep)[0]]
                + split_on(full.skip(i as int), sep).skip(1),
        decreases full.len() - i,
    {
        let ghost pre = split_on(full.skip(i as int), sep);
        let ghost tail = split_on(full.skip(i + 1), sep);
        proof {
            lemma_split_on_nonempty(full.skip(i + 1), sep);
            assert(full.skip(i as int)[0] == full[i as int]);
            assert(full.skip(i as int).skip(1) =~= full.skip(i + 1));
            assert(full.skip(i as int).len() > 0);
        }
        let c = s[i];
        if c == sep {
            proof {
                assert(pre == seq![Seq::<char>::empty()] + tail);
                assert(pre[0] == Seq::<char>::empty());
                assert(pre.skip(1) =~= tail);
                assert(cur@ + pre[0] =~= cur@);
            }
            let ghost out_old = out@;
            let ghost cur_old = cur@;
            let piece = from_chars(&cur);
            out.push(piece);
            cur = Vec::new();
            proof {
                assert(views_of(out@) =~= views_of(out_old).push(cur_old));
                assert(seq![tail[0]] + tail.skip(1) =~= tail);
                assert(cur@ + tail[0] =~= tail[0]);
                assert(views_of(out_old) + seq![cur_old] + tail =~= views_of(out@) + seq![cur@
                    + tail[0]] + tail.skip(1));
                assert(views_of(out_old) + seq![cur_old + pre[0]] + pre.skip(1) =~= views_of(
                    out_old,
                ) + seq![cur_old] + tail);
            }
        } else {
            let ghost cur_old = cur@;
            cur.push(c);
            proof {
                assert(pre == seq![seq![full[i as int]] + tail[0]] + tail.skip(1));
                assert(pre[0] == seq![full[i as int]] + tail[0]);
                assert(pre.skip(1) =~= tail.skip(1));
                assert(cur_old + (seq![full[i as int]] + tail[0]) =~= cur@ + tail[0]);
                assert(views_of(out@) + seq![cur_old + pre[0]] + pre.skip(1) =~= views_of(out@)
                    + seq![cur@ + tail[0]] + tail.skip(1));
            }
        }
        i = i + 1;
    }
    proof {
        assert(full.skip(full.len() as int) =~= Seq::<char>::empty());
        assert(split_on(full.skip(full.len() as int), sep) == seq![Seq::<char>::empty()]);
        let pre = split_on(full.skip(full.len() as int), sep);
        assert(cur@ + pre[0] =~= cur@);
        assert(pre.skip(1) =~= Seq::<Seq<char>>::empty());
    }
    let ghost out_old = out@;
    let ghost cur_old = cur@;
    let piece = from_chars(&cur);
    out.push(piece);
    proof {
        assert(views_of(out@) =~= views_of(out_old).push(cur_old));
        assert(views_of(out_old) + seq![cur_old] + Seq::<Seq<char>>::empty() =~= views_of(out@));
        assert(split_on(full, sep) == views_of(out@));
    }
    out
}

/// Appends all characters of `src` to `dst`.
pub fn push_all(dst: &mut Vec<char>, src: &Vec<char>)
    ensures
        final(dst)@ == old(dst)@ + src@,
{
    let mut i: usize = 0;
    proof {
        assert(dst@ + src@.take(0) =~= dst@);
    }
    while i < src.len()
        invariant
            0 <= i <= src@.len(),
            dst@ == old(dst)@ + src@.take(i as int),
        decreases src@.len() - i,
    {
        dst.push(src[i]);
        proof {
            assert(old(dst)@ + src@.take(i + 1) =~= (old(dst)@ + src@.take(i as int)).push(
                src@[i as int],
            ));
        }
        i = i + 1;
    }
    proof {
        assert(src@.take(src@.len() as int) =~= src@);
    }
}

/// The replacement text interleaved at every position of `s`: what
/// replacing the empty pattern yields.
pub open spec fn interleave_with(s: Seq<char>, to: Seq<char>) -> Seq<char>
    decreases s.len(),
{
    if s.len() == 0 {
        to
    } else {
        to + seq![s[0]] + interleave_with(s.skip(1), to)
    }
}

/// `s` with every occurrence of `from` replaced by `to`, leftmost first and
/// non-overlapping; the empty pattern matches at every position, so `to` is
/// interleaved between all characters and at both ends.
pub open spec fn replace_spec(s: Seq<char>, from: Seq<char>, to: Seq<char>) -> Seq<char>
    decreases s.len(),
    via replace_spec_decreases
{
    if from.len() == 0 {
        interleave_with(s, to)
    } else {
        let m = first_match_from(s, from, 0);
        if m >= 0 {
            s.take(m) + to + replace_spec(s.skip(m + from.len()), from, to)
        } else {
            s
        }
    }
}

#[via_fn]
proof fn replace_spec_decreases(s: Seq<char>, from: Seq<char>, to: Seq<char>) {
    if from.len() > 0 {
        let m = first_match_from(s, from, 0);
        if m >= 0 {
            lemma_first_match_from(s, from, 0);
        }
    }
}

/// Replaces every occurrence of `from` in `s` with `to`, leftmost first and
/// non-overlapping.
pub fn replace_chars(s: &Vec<char>, from: &Vec<char>, to: &Vec<char>) -> (r: Vec<char>)
    ensures
        r@ == replace_spec(s@, from@, to@),
{
    let mut out: Vec<char> = Vec::new();
    if from.len() == 0 {
        let mut i: usize = 0;
        proof {
            assert(s@.skip(0) =~= s@);
            assert(out@ + interleave_with(s@, to@) =~= interleave_with(s@, to@));
        }
        while i < s.len()
            invariant
                0 <= i <= s@.len(),
                interleave_with(s@, to@) == out@ + interleave_with(s@.skip(i as int), to@),
            decreases s@.len() - i,
        {
            proof {
                assert(s@.skip(i as int)[0] == s@[i as int]);
                assert(s@.skip(i as int).skip(1) =~= s@.skip(i + 1));
            }
            let ghost out_pre = out@;
            push_all(&mut out, to);
            out.push(s[i]);
            proof {
                assert(out@ =~= out_pre + to@ + seq![s@[i as int]]);
                assert(out_pre + (to@ + seq![s@[i as int]] + interleave_with(s@.skip(i + 1), to@))
                    =~= out@ + interleave_with(s@.skip(i + 1), to@));
            }
            i = i + 1;
        }
        push_all(&mut out, to);
        proof {
            assert(interleave_with(s@.skip(s@.len() as int), to@) == to@);
        }
        return out;
    }
    let mut i: usize = 0;
    proof {
        assert(s@.skip(0) =~= s@);
        assert(out@ + replace_spec(s@, from@, to@) =~= replace_spec(s@, from@, to@));
    }
    while i < s.len()
        invariant
            0 <= i <= s@.len(),
            from@.len() > 0,
            replace_spec(s@, from@, to@) == out@ + replace_spec(s@.skip(i as int), from@, to@),
        decreases s@.len() - i,
    {
        let suf = tail_from(s, i);
        match find_sub(&suf, from) {
            Some(m) => {
                proof {
                    lemma_first_match_from(suf@, from@, 0);
                    assert(replace_spec(suf@, from@, to@) == suf@.take(m as int) + to@
                        + replace_spec(suf@.skip(m + from@.len()), from@, to@));
                }
                let ghost out_pre = out@;
                let piece = head_to(&suf, m);
                push_all(&mut out, &piece);
                push_all(&mut out, to);
                proof {
                    assert(out@ =~= out_pre + suf@.take(m as int) + to@);
                    assert(suf@.skip(m + from@.len()) =~= s@.skip(i + m + from@.len()));
                    assert(out_pre + (suf@.take(m as int) + to@ + replace_spec(
                        s@.skip(i + m + from@.len()),
                        from@,
                        to@,
                    )) =~= out@ + replace_spec(s@.skip(i + m + from@.len()), from@, to@));
                }
                i = i + m + from.len();
            },
            None => {
                proof {
                    assert(replace_spec(suf@, from@, to@) == suf@);
                }
                push_all(&mut out, &suf);
                return out;
            },
        }
    }
    proof {
        assert(s@.skip(s@.len() as int) =~= Seq::<char>::empty());
        assert(first_match_from(Seq::<char>::empty(), from@, 0) == -1);
        assert(out@ + Seq::<char>::empty() =~= out@);
    }
    out
}

/// Copies the part of `s` after the last occurrence of `sep`, or all of `s`
/// if `sep` does not occur: the last piece of the split on `sep`.
pub fn suffix_after_last(s: &Vec<char>, sep: char) -> (r: Vec<char>)
    ensures
        r@ == split_on(s@, sep).last(),
{
    let mut j: usize = s.len();
    while j > 0
        invariant
            0 <= j <= s@.len(),
            forall|k: int| j <= k < s@.len() ==> s@[k] != sep,
        decreases j,
    {
        if s[j - 1] == sep {
            proof {
                lemma_split_on_last(s@, sep, j - 1);
            }
            return tail_from(s, j);
        }
        j = j - 1;
    }
    proof {
        lemma_split_on_no_sep(s@, sep);
        assert(s@.skip(0) =~= s@);
    }
    tail_from(s, 0)
}

} // verus!
