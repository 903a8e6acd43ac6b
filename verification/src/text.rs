use vstd::prelude::*;

verus! {

/// The characters with the Unicode `White_Space` property.
pub open spec fn spec_is_white_space(c: char) -> bool {
    ||| ('\t' <= c && c <= '\r')
    ||| c == ' '
    ||| c == '\u{85}'
    ||| c == '\u{a0}'
    ||| c == '\u{1680}'
    ||| ('\u{2000}' <= c && c <= '\u{200a}')
    ||| c == '\u{2028}'
    ||| c == '\u{2029}'
    ||| c == '\u{202f}'
    ||| c == '\u{205f}'
    ||| c == '\u{3000}'
}

/// Whether `c` is white space in the sense of the Unicode `White_Space` property.
pub fn is_white_space(c: char) -> (b: bool)
    ensures
        b == spec_is_white_space(c),
{
    ('\t' <= c && c <= '\r') || c == ' ' || c == '\u{85}' || c == '\u{a0}' || c == '\u{1680}'
        || ('\u{2000}' <= c && c <= '\u{200a}') || c == '\u{2028}' || c == '\u{2029}'
        || c == '\u{202f}' || c == '\u{205f}' || c == '\u{3000}'
}

} // verus!

verus! {

/// The views of a sequence of owned strings.
pub open spec fn views(v: Seq<String>) -> Seq<Seq<char>> {
    v.map_values(|s: String| s@)
}

/// `s` with its leading white space removed.
pub open spec fn trim_start_spec(s: Seq<char>) -> Seq<char>
    decreases s.len(),
{
    if s.len() > 0 && spec_is_white_space(s[0]) {
        trim_start_spec(s.drop_first())
    } else {
        s
    }
}

/// `s` with its trailing white space removed.
pub open spec fn trim_end_spec(s: Seq<char>) -> Seq<char>
    decreases s.len(),
{
    if s.len() > 0 && spec_is_white_space(s.last()) {
        trim_end_spec(s.drop_last())
    } else {
        s
    }
}

/// `s` with leading and trailing white space removed.
pub open spec fn trimmed(s: Seq<char>) -> Seq<char> {
    trim_end_spec(trim_start_spec(s))
}

/// The part of `s` after the last `sep`; all of `s` when it holds no `sep`.
pub open spec fn after_last(s: Seq<char>, sep: char) -> Seq<char>
    decreases s.len(),
{
    if s.len() == 0 {
        s
    } else if s.last() == sep {
        Seq::empty()
    } else {
        after_last(s.drop_last(), sep).push(s.last())
    }
}

/// The pieces of `s` between occurrences of `sep`, as `str::split` yields them.
pub open spec fn split_spec(s: Seq<char>, sep: char) -> Seq<Seq<char>>
    decreases s.len(),
{
    if s.len() == 0 {
        seq![Seq::<char>::empty()]
    } else {
        let rest = split_spec(s.drop_last(), sep);
        if s.last() == sep {
            rest.push(Seq::<char>::empty())
        } else {
            rest.update(rest.len() - 1, rest.last().push(s.last()))
        }
    }
}

/// Whether `s` begins with `prefix`.
pub open spec fn has_prefix(s: Seq<char>, prefix: Seq<char>) -> bool {
    prefix.len() <= s.len() && s.subrange(0, prefix.len() as int) == prefix
}

/// Removes leading and trailing white space, as `str::trim` does.
pub fn trim(s: &str) -> (res: &str)
    ensures
        res@ == trimmed(s@),
{
    let n = s.unicode_len();
    let mut i: usize = 0;
    assert(s@.subrange(0, n as int) =~= s@);
    while i < n && is_white_space(s.get_char(i))
        invariant
            n == s@.len(),
            i <= n,
            trim_start_spec(s@) == trim_start_spec(s@.subrange(i as int, n as int)),
        decreases n - i,
    {
        assert(s@.subrange(i as int, n as int).drop_first() =~= s@.subrange(i + 1, n as int));
        i = i + 1;
    }
    assert(trim_start_spec(s@) == s@.subrange(i as int, n as int));
    let mut j: usize = n;
    while j > i && is_white_space(s.get_char(j - 1))
        invariant
            n == s@.len(),
            i <= j <= n,
            trimmed(s@) == trim_end_spec(s@.subrange(i as int, j as int)),
        decreases j - i,
    {
        assert(s@.subrange(i as int, j as int).drop_last() =~= s@.subrange(i as int, j - 1));
        j = j - 1;
    }
    s.substring_char(i, j)
}

/// Whether `s` begins with `prefix`, as `str::starts_with` with a string pattern.
pub fn starts_with(s: &str, prefix: &str) -> (b: bool)
    ensures
        b == has_prefix(s@, prefix@),
{
    let n = s.unicode_len();
    let m = prefix.unicode_len();
    if m > n {
        return false;
    }
    let mut i: usize = 0;
    while i < m
        invariant
            n == s@.len(),
            m == prefix@.len(),
            m <= n,
            i <= m,
            forall|k: int| 0 <= k < i ==> s@[k] == prefix@[k],
        decreases m - i,
    {
        if s.get_char(i) != prefix.get_char(i) {
            assert(s@.subrange(0, m as int)[i as int] != prefix@[i as int]);
            return false;
        }
        i = i + 1;
    }
    assert(s@.subrange(0, m as int) =~= prefix@);
    true
}

/// The part of `s` after the last `sep`, as `s.split(sep).next_back()` yields it.
pub fn last_piece(s: &str, sep: char) -> (res: &str)
    ensures
        res@ == after_last(s@, sep),
{
    let n = s.unicode_len();
    let mut j: usize = n;
    assert(s@.subrange(n as int, n as int) =~= Seq::<char>::empty());
    assert(s@.subrange(0, n as int) =~= s@);
    while j > 0 && s.get_char(j - 1) != sep
        invariant
            n == s@.len(),
            j <= n,
            after_last(s@, sep) == after_last(s@.subrange(0, j as int), sep) + s@.subrange(
                j as int,
                n as int,
            ),
        decreases j,
    {
        let ghost pre = s@.subrange(0, j as int);
        assert(pre.drop_last() =~= s@.subrange(0, j - 1));
        assert(s@.subrange(j - 1, n as int) =~= seq![pre.last()] + s@.subrange(j as int, n as int));
        assert(after_last(pre, sep) == after_last(pre.drop_last(), sep).push(pre.last()));
        assert(after_last(pre.drop_last(), sep).push(pre.last()) + s@.subrange(j as int, n as int)
            =~= after_last(pre.drop_last(), sep) + s@.subrange(j - 1, n as int));
        j = j - 1;
    }
    assert(after_last(s@.subrange(0, j as int), sep) =~= Seq::<char>::empty());
    assert(after_last(s@, sep) =~= s@.subrange(j as int, n as int));
    s.substring_char(j, n)
}

/// The pieces of `s` between occurrences of `sep`, as `s.split(sep)` yields them.
pub fn split_by<'a>(s: &'a str, sep: char) -> (res: Vec<&'a str>)
    ensures
        res@.map_values(|p: &str| p@) == split_spec(s@, sep),
{
    let n = s.unicode_len();
    let mut res: Vec<&'a str> = Vec::new();
    let mut start: usize = 0;
    let mut i: usize = 0;
    assert(s@.subrange(0, 0) =~= Seq::<char>::empty());
    assert(res@.map_values(|p: &str| p@).push(s@.subrange(0, 0)) =~= split_spec(
        s@.subrange(0, 0),
        sep,
    ));
    while i < n
        invariant
            n == s@.len(),
            start <= i <= n,
            split_spec(s@.subrange(0, i as int), sep) == res@.map_values(|p: &str| p@).push(
                s@.subrange(start as int, i as int),
            ),
        decreases n - i,
    {
        let ghost pre = s@.subrange(0, i + 1);
        assert(pre.drop_last() =~= s@.subrange(0, i as int));
        let c = s.get_char(i);
        if c == sep {
            let piece = s.substring_char(start, i);
            res.push(piece);
            assert(s@.subrange((i + 1) as int, (i + 1) as int) =~= Seq::<char>::empty());
            assert(split_spec(pre, sep) =~= res@.map_values(|p: &str| p@).push(
                s@.subrange((i + 1) as int, (i + 1) as int),
            ));
            start = i + 1;
        } else {
            assert(s@.subrange(start as int, i + 1) =~= s@.subrange(start as int, i as int).push(
                c,
            ));
            assert(split_spec(pre, sep) =~= res@.map_values(|p: &str| p@).push(
                s@.subrange(start as int, i + 1),
            ));
        }
        i = i + 1;
    }
    let piece = s.substring_char(start, n);
    res.push(piece);
    assert(s@.subrange(0, n as int) =~= s@);
    assert(res@.map_values(|p: &str| p@) =~= split_spec(s@, sep));
    res
}

} // verus!

verus! {

/// The index of the last `sep` in `s`, or -1 when there is none.
pub open spec fn last_index_of(s: Seq<char>, sep: char) -> int
    decreases s.len(),
{
    if s.len() == 0 {
        -1
    } else if s.last() == sep {
        s.len() - 1
    } else {
        last_index_of(s.drop_last(), sep)
    }
}

/// Facts about `last_index_of`.
pub proof fn lemma_last_index_of(s: Seq<char>, sep: char)
    ensures
        -1 <= last_index_of(s, sep) < s.len(),
        last_index_of(s, sep) >= 0 ==> s[last_index_of(s, sep)] == sep,
        forall|k: int| last_index_of(s, sep) < k < s.len() ==> s[k] != sep,
    decreases s.len(),
{
    if s.len() > 0 && s.last() != sep {
        lemma_last_index_of(s.drop_last(), sep);
        assert forall|k: int| last_index_of(s, sep) < k < s.len() implies s[k] != sep by {
            if k < s.len() - 1 {
                assert(s.drop_last()[k] == s[k]);
            }
        }
    }
}

/// Finds the last `sep` in `s` before character position `end`.
pub fn find_last(s: &str, sep: char, end: usize) -> (res: Option<usize>)
    requires
        end <= s@.len(),
    ensures
        match res {
            Some(k) => k as int == last_index_of(s@.subrange(0, end as int), sep),
            None => last_index_of(s@.subrange(0, end as int), sep) == -1,
        },
{
    let mut j: usize = end;
    while j > 0 && s.get_char(j - 1) != sep
        invariant
            j <= end <= s@.len(),
            last_index_of(s@.subrange(0, end as int), sep) == last_index_of(
                s@.subrange(0, j as int),
                sep,
            ),
        decreases j,
    {
        assert(s@.subrange(0, j as int).drop_last() =~= s@.subrange(0, j - 1));
        j = j - 1;
    }
    if j == 0 {
        None
    } else {
        Some(j - 1)
    }
}

/// Whether two strings hold the same characters.
pub fn same_text(a: &str, b: &str) -> (res: bool)
    ensures
        res == (a@ == b@),
{
    let n = a.unicode_len();
    let m = b.unicode_len();
    if n != m {
        return false;
    }
    let mut i: usize = 0;
    while i < n
        invariant
            n == a@.len(),
            m == b@.len(),
            n == m,
            i <= n,
            forall|k: int| 0 <= k < i ==> a@[k] == b@[k],
        decreases n - i,
    {
        if a.get_char(i) != b.get_char(i) {
            return false;
        }
        i = i + 1;
    }
    assert(a@ =~= b@);
    true
}

} // verus!

verus! {

/// How many times `c` occurs in `s`.
pub open spec fn count_of(s: Seq<char>, c: char) -> nat
    decreases s.len(),
{
    if s.len() == 0 {
        0
    } else {
        count_of(s.drop_last(), c) + if s.last() == c {
            1nat
        } else {
            0nat
        }
    }
}

/// Splitting on a separator yields one more piece than the text has separators, no piece
/// holds the separator, and the pieces joined with the separator give back the text.
pub proof fn lemma_split_pieces(s: Seq<char>, sep: char)
    ensures
        split_spec(s, sep).len() == count_of(s, sep) + 1,
        forall|i: int, j: int|
            0 <= i < split_spec(s, sep).len() && 0 <= j < split_spec(s, sep)[i].len() ==> #[trigger] split_spec(
                s,
                sep,
            )[i][j] != sep,
        crate::tags::joined(split_spec(s, sep), seq![sep]) == s,
    decreases s.len(),
{
    if s.len() == 0 {
        assert(split_spec(s, sep) =~= seq![Seq::<char>::empty()]);
        assert(crate::tags::joined(seq![Seq::<char>::empty()], seq![sep]) == Seq::<char>::empty());
        assert(s =~= Seq::<char>::empty());
    } else {
        lemma_split_pieces(s.drop_last(), sep);
        let rest = split_spec(s.drop_last(), sep);
        let c = s.last();
        let pieces = split_spec(s, sep);
        assert(s =~= s.drop_last().push(c));
        if c == sep {
            assert(pieces == rest.push(Seq::<char>::empty()));
            assert(pieces.drop_last() =~= rest);
            assert(crate::tags::joined(pieces, seq![sep]) =~= crate::tags::joined(rest, seq![sep])
                + seq![sep] + Seq::<char>::empty());
            assert forall|i: int, j: int|
                0 <= i < pieces.len() && 0 <= j < pieces[i].len() implies #[trigger] pieces[i][j]
                != sep by {
                assert(i < rest.len());
                assert(pieces[i] == rest[i]);
            }
        } else {
            let last = rest.last().push(c);
            assert(pieces == rest.update(rest.len() - 1, last));
            if rest.len() == 1 {
                assert(pieces =~= seq![last]);
                assert(crate::tags::joined(seq![last], seq![sep]) == last);
                assert(crate::tags::joined(rest, seq![sep]) == rest[0]);
                assert(crate::tags::joined(pieces, seq![sep]) =~= crate::tags::joined(rest, seq![sep]).push(c));
            } else {
                assert(pieces.drop_last() =~= rest.drop_last());
                assert(pieces.last() == last);
                assert(crate::tags::joined(pieces, seq![sep]) =~= crate::tags::joined(rest, seq![sep]).push(c));
            }
            assert forall|i: int, j: int|
                0 <= i < pieces.len() && 0 <= j < pieces[i].len() implies #[trigger] pieces[i][j]
                != sep by {
                if i < rest.len() - 1 {
                    assert(pieces[i] == rest[i]);
                } else {
                    assert(pieces[i] == last);
                    if j < rest.last().len() {
                        assert(last[j] == rest[rest.len() - 1][j]);
                    }
                }
            }
        }
    }
}

} // verus!

verus! {

/// The part after the last separator is a suffix of the text that holds no separator and
/// that follows either the start of the text or a separator.
pub proof fn lemma_after_last(s: Seq<char>, sep: char)
    ensures
        forall|i: int| 0 <= i < after_last(s, sep).len() ==> #[trigger] after_last(s, sep)[i] != sep,
        after_last(s, sep).len() <= s.len(),
        s == s.take(s.len() - after_last(s, sep).len()) + after_last(s, sep),
        after_last(s, sep).len() < s.len() ==> s[s.len() - after_last(s, sep).len() - 1] == sep,
    decreases s.len(),
{
    if s.len() > 0 {
        lemma_after_last(s.drop_last(), sep);
        let r = after_last(s, sep);
        if s.last() == sep {
            assert(s.take(s.len() as int) =~= s);
            assert(s =~= s.take(s.len() - r.len()) + r);
        } else {
            let rd = after_last(s.drop_last(), sep);
            assert(r == rd.push(s.last()));
            let k = s.len() - r.len();
            assert(s.drop_last().take(k) =~= s.take(k));
            assert(s =~= s.drop_last().push(s.last()));
            assert(s.drop_last() == s.drop_last().take(k) + rd);
            assert((s.take(k) + rd).push(s.last()) =~= s.take(k) + r);
            assert(s =~= s.take(k) + r);
            if r.len() < s.len() {
                assert(s[k - 1] == s.drop_last()[k - 1]);
            }
            assert forall|i: int| 0 <= i < r.len() implies #[trigger] r[i] != sep by {
                if i < rd.len() {
                    assert(r[i] == rd[i]);
                }
            }
        }
    } else {
        assert(s.take(0) + s =~= s);
    }
}

} // verus!

verus! {

/// Trimming removes only white space, and only at the ends: the text is some white space,
/// the trimmed text, then some white space, and the trimmed text, unless empty, neither
/// begins nor ends with white space.
pub proof fn lemma_trimmed(s: Seq<char>)
    ensures
        exists|a: int, b: int|
            #![trigger s.subrange(a, b)]
            0 <= a <= b <= s.len() && trimmed(s) == s.subrange(a, b) && (forall|i: int|
                0 <= i < a ==> spec_is_white_space(#[trigger] s[i])) && (forall|i: int|
                b <= i < s.len() ==> spec_is_white_space(#[trigger] s[i])),
        trimmed(s).len() > 0 ==> !spec_is_white_space(trimmed(s)[0]) && !spec_is_white_space(
            trimmed(s).last(),
        ),
{
    let (a, t) = lemma_trim_start(s);
    let b = lemma_trim_end(t);
    assert(trimmed(s) == s.subrange(a, a + b));
    assert forall|i: int| a + b <= i < s.len() implies spec_is_white_space(#[trigger] s[i]) by {
        assert(s[i] == t[i - a]);
    }
    if trimmed(s).len() > 0 {
        assert(trimmed(s)[0] == t[0]);
    }
}

proof fn lemma_trim_start(s: Seq<char>) -> (r: (int, Seq<char>))
    ensures
        0 <= r.0 <= s.len(),
        r.1 == s.subrange(r.0, s.len() as int),
        trim_start_spec(s) == r.1,
        forall|i: int| 0 <= i < r.0 ==> spec_is_white_space(#[trigger] s[i]),
        r.1.len() > 0 ==> !spec_is_white_space(r.1[0]),
    decreases s.len(),
{
    if s.len() > 0 && spec_is_white_space(s[0]) {
        let (a, t) = lemma_trim_start(s.drop_first());
        assert(s.drop_first().subrange(a, s.drop_first().len() as int) =~= s.subrange(
            a + 1,
            s.len() as int,
        ));
        assert forall|i: int| 0 <= i < a + 1 implies spec_is_white_space(#[trigger] s[i]) by {
            if i > 0 {
                assert(s[i] == s.drop_first()[i - 1]);
            }
        }
        (a + 1, t)
    } else {
        assert(s.subrange(0, s.len() as int) =~= s);
        (0, s)
    }
}

proof fn lemma_trim_end(t: Seq<char>) -> (b: int)
    ensures
        0 <= b <= t.len(),
        trim_end_spec(t) == t.subrange(0, b),
        forall|i: int| b <= i < t.len() ==> spec_is_white_space(#[trigger] t[i]),
        b > 0 ==> !spec_is_white_space(t[b - 1]),
    decreases t.len(),
{
    if t.len() > 0 && spec_is_white_space(t.last()) {
        let b = lemma_trim_end(t.drop_last());
        assert(t.drop_last().subrange(0, b) =~= t.subrange(0, b));
        assert forall|i: int| b <= i < t.len() implies spec_is_white_space(#[trigger] t[i]) by {
            if i < t.len() - 1 {
                assert(t[i] == t.drop_last()[i]);
            }
        }
        b
    } else {
        assert(t.subrange(0, t.len() as int) =~= t);
        t.len() as int
    }
}

} // verus!
