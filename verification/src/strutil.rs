//! String operations shared by the crate: searching, splitting, trimming and
//! joining, each as a specification over `Seq<char>` with a verified
//! executable counterpart built on `vstd`'s string primitives.

use vstd::prelude::*;
use vstd::string::StrSliceExecFns;
use vstd::string::StringExecFns;

verus! {

/// Index of the first occurrence of `c` in `s`, or `-1` when `c` is absent.
pub open spec fn first_index_of(s: Seq<char>, c: char) -> int
    decreases s.len(),
{
    if s.len() == 0 {
        -1
    } else if s[0] == c {
        0
    } else {
        let r = first_index_of(s.drop_first(), c);
        if r < 0 {
            -1
        } else {
            r + 1
        }
    }
}

/// Index of the last occurrence of `c` in `s`, or `-1` when `c` is absent.
pub open spec fn last_index_of(s: Seq<char>, c: char) -> int
    decreases s.len(),
{
    if s.len() == 0 {
        -1
    } else if s.last() == c {
        s.len() - 1
    } else {
        last_index_of(s.drop_last(), c)
    }
}

/// `s` ends with `suffix`.
pub open spec fn ends_with(s: Seq<char>, suffix: Seq<char>) -> bool {
    s.len() >= suffix.len() && s.subrange(s.len() - suffix.len(), s.len() as int) == suffix
}

/// The ASCII whitespace characters stripped from the end of captured text.
pub open spec fn is_ascii_space(c: char) -> bool {
    c == ' ' || c == '\t' || c == '\r' || c == '\n'
}

/// `s` with every trailing ASCII whitespace character removed.
pub open spec fn trim_end_spaces(s: Seq<char>) -> Seq<char>
    decreases s.len(),
{
    if s.len() == 0 {
        s
    } else if is_ascii_space(s.last()) {
        trim_end_spaces(s.drop_last())
    } else {
        s
    }
}

/// `s` split on `sep`. Always yields at least one piece; splitting the empty
/// string yields one empty piece, and `n` separators yield `n + 1` pieces.
pub open spec fn split_on(s: Seq<char>, sep: char) -> Seq<Seq<char>>
    decreases s.len(),
{
    if s.len() == 0 {
        seq![Seq::<char>::empty()]
    } else if s[0] == sep {
        seq![Seq::<char>::empty()] + split_on(s.drop_first(), sep)
    } else {
        let r = split_on(s.drop_first(), sep);
        seq![seq![s[0]] + r[0]] + r.drop_first()
    }
}

/// The pieces of `parts` concatenated with `sep` between consecutive pieces.
pub open spec fn join_with(parts: Seq<Seq<char>>, sep: Seq<char>) -> Seq<char>
    decreases parts.len(),
{
    if parts.len() == 0 {
        Seq::<char>::empty()
    } else if parts.len() == 1 {
        parts[0]
    } else {
        parts[0] + sep + join_with(parts.drop_first(), sep)
    }
}

/// Characterizes `first_index_of`: a non-negative result is a position of
/// `c` preceded by no other occurrence, and `-1` means `c` is absent.
pub proof fn lemma_first_index_of(s: Seq<char>, c: char)
    ensures
        first_index_of(s, c) == -1 ==> forall|j: int| 0 <= j < s.len() ==> s[j] != c,
        first_index_of(s, c) != -1 ==> 0 <= first_index_of(s, c) < s.len() && s[first_index_of(
            s,
            c,
        )] == c && forall|j: int| 0 <= j < first_index_of(s, c) ==> s[j] != c,
    decreases s.len(),
{
    if s.len() == 0 {
    } else if s[0] == c {
    } else {
        lemma_first_index_of(s.drop_first(), c);
        assert(forall|j: int| 1 <= j < s.len() ==> s[j] == s.drop_first()[j - 1]);
    }
}

/// The converse: a position of `c` with no earlier occurrence is exactly
/// `first_index_of`.
pub proof fn lemma_first_index_at(s: Seq<char>, c: char, i: int)
    requires
        0 <= i < s.len(),
        s[i] == c,
        forall|j: int| 0 <= j < i ==> s[j] != c,
    ensures
        first_index_of(s, c) == i,
{
    lemma_first_index_of(s, c);
}

/// Characterizes `last_index_of`: a non-negative result is a position of
/// `c` followed by no other occurrence, and `-1` means `c` is absent.
pub proof fn lemma_last_index_of(s: Seq<char>, c: char)
    ensures
        last_index_of(s, c) == -1 ==> forall|j: int| 0 <= j < s.len() ==> s[j] != c,
        last_index_of(s, c) != -1 ==> 0 <= last_index_of(s, c) < s.len() && s[last_index_of(
            s,
            c,
        )] == c && forall|j: int| last_index_of(s, c) < j < s.len() ==> s[j] != c,
    decreases s.len(),
{
    if s.len() == 0 {
    } else if s.last() == c {
    } else {
        lemma_last_index_of(s.drop_last(), c);
        assert(forall|j: int| 0 <= j < s.len() - 1 ==> s[j] == s.drop_last()[j]);
    }
}

/// The converse: a position of `c` with no later occurrence is exactly
/// `last_index_of`.
pub proof fn lemma_last_index_at(s: Seq<char>, c: char, i: int)
    requires
        0 <= i < s.len(),
        s[i] == c,
        forall|j: int| i < j < s.len() ==> s[j] != c,
    ensures
        last_index_of(s, c) == i,
{
    lemma_last_index_of(s, c);
}

/// `split_on` always yields at least one piece.
pub proof fn lemma_split_on_len(s: Seq<char>, sep: char)
    ensures
        split_on(s, sep).len() >= 1,
    decreases s.len(),
{
    if s.len() == 0 {
    } else if s[0] == sep {
    } else {
    }
}

/// Unfolds `split_on` at the first separator: with no separator the whole
/// string is the single piece; otherwise the prefix before the first
/// separator is the head piece and the remainder is split recursively.
pub proof fn lemma_split_on_head(s: Seq<char>, sep: char)
    ensures
        first_index_of(s, sep) == -1 ==> split_on(s, sep) == seq![s],
        first_index_of(s, sep) >= 0 ==> split_on(s, sep) == seq![
            s.subrange(0, first_index_of(s, sep)),
        ] + split_on(s.subrange(first_index_of(s, sep) + 1, s.len() as int), sep),
    decreases s.len(),
{
    lemma_first_index_of(s, sep);
    if s.len() == 0 {
        assert(s =~= Seq::<char>::empty());
        assert(split_on(s, sep) =~~= seq![s]);
    } else if s[0] == sep {
        assert(s.subrange(0, 0) =~= Seq::<char>::empty());
        assert(s.subrange(1, s.len() as int) =~= s.drop_first());
        assert(split_on(s, sep) =~~= seq![s.subrange(0, 0)] + split_on(
            s.subrange(1, s.len() as int),
            sep,
        ));
    } else {
        let d = s.drop_first();
        let r = split_on(d, sep);
        lemma_split_on_head(d, sep);
        lemma_split_on_len(d, sep);
        let fd = first_index_of(d, sep);
        if fd == -1 {
            assert(first_index_of(s, sep) == -1);
            assert(r == seq![d]);
            assert(seq![s[0]] + r[0] =~= s);
            assert(r.drop_first() =~~= Seq::<Seq<char>>::empty());
            assert(split_on(s, sep) =~~= seq![s]);
        } else {
            let fi = first_index_of(s, sep);
            assert(fi == fd + 1);
            assert(r == seq![d.subrange(0, fd)] + split_on(d.subrange(fd + 1, d.len() as int), sep));
            assert(r[0] == d.subrange(0, fd));
            assert(r.drop_first() =~~= split_on(d.subrange(fd + 1, d.len() as int), sep));
            assert(seq![s[0]] + d.subrange(0, fd) =~= s.subrange(0, fi));
            assert(d.subrange(fd + 1, d.len() as int) =~= s.subrange(fi + 1, s.len() as int));
            assert(split_on(s, sep) =~~= seq![s.subrange(0, fi)] + split_on(
                s.subrange(fi + 1, s.len() as int),
                sep,
            ));
        }
    }
}

/// Appending one more piece extends a join by the separator and that piece.
pub proof fn lemma_join_with_push(parts: Seq<Seq<char>>, x: Seq<char>, sep: Seq<char>)
    ensures
        parts.len() == 0 ==> join_with(parts.push(x), sep) == x,
        parts.len() > 0 ==> join_with(parts.push(x), sep) == join_with(parts, sep) + sep + x,
    decreases parts.len(),
{
    let p = parts.push(x);
    if parts.len() == 0 {
        assert(p[0] == x);
    } else if parts.len() == 1 {
        assert(p.drop_first() =~~= seq![x]);
        assert(join_with(p, sep) == p[0] + sep + join_with(p.drop_first(), sep));
        assert(join_with(seq![x], sep) == x);
        assert(join_with(p, sep) == parts[0] + sep + x);
    } else {
        lemma_join_with_push(parts.drop_first(), x, sep);
        assert(p.drop_first() =~~= parts.drop_first().push(x));
        assert(join_with(p, sep) == p[0] + sep + join_with(parts.drop_first().push(x), sep));
        assert(join_with(parts.drop_first().push(x), sep) == join_with(parts.drop_first(), sep)
            + sep + x);
        assert((parts[0] + sep + join_with(parts.drop_first(), sep)) + sep + x =~= parts[0] + sep
            + (join_with(parts.drop_first(), sep) + sep + x));
    }
}

/// Whether the views of two string slices are equal, decided character by
/// character.
pub fn str_eq(a: &str, b: &str) -> (r: bool)
    ensures
        r == (a@ == b@),
{
    let na = a.unicode_len();
    let nb = b.unicode_len();
    if na != nb {
        return false;
    }
    let mut i: usize = 0;
    while i < na
        invariant
            na == a@.len(),
            nb == b@.len(),
            na == nb,
            i <= na,
            forall|j: int| 0 <= j < i ==> a@[j] == b@[j],
        decreases na - i,
    {
        if a.get_char(i) != b.get_char(i) {
            return false;
        }
        i += 1;
    }
    proof {
        assert(a@ =~= b@);
    }
    true
}

/// First position of `c` in `s` at or after `from`, if any.
pub fn find_char(s: &str, c: char, from: usize) -> (r: Option<usize>)
    requires
        from <= s@.len(),
    ensures
        match r {
            Some(i) => from <= i && (i as int) < s@.len() && s@[i as int] == c && (forall|j: int|
                from <= j < i as int ==> s@[j] != c),
            None => forall|j: int| from <= j < s@.len() ==> s@[j] != c,
        },
{
    let n = s.unicode_len();
    let mut i: usize = from;
    while i < n
        invariant
            from <= i <= n,
            n == s@.len(),
            forall|j: int| from <= j < i ==> s@[j] != c,
        decreases n - i,
    {
        if s.get_char(i) == c {
            return Some(i);
        }
        i += 1;
    }
    None
}

/// Last position of `c` in `s`, if any.
pub fn rfind_char(s: &str, c: char) -> (r: Option<usize>)
    ensures
        match r {
            Some(i) => (i as int) < s@.len() && s@[i as int] == c && (forall|j: int|
                (i as int) < j < s@.len() ==> s@[j] != c),
            None => forall|j: int| 0 <= j < s@.len() ==> s@[j] != c,
        },
{
    let n = s.unicode_len();
    let mut i: usize = n;
    while i > 0
        invariant
            i <= n,
            n == s@.len(),
            forall|j: int| i <= j < n ==> s@[j] != c,
        decreases i,
    {
        if s.get_char(i - 1) == c {
            return Some(i - 1);
        }
        i = i - 1;
    }
    None
}

/// Whether `s` ends with `suffix`, decided character by character.
pub fn str_ends_with(s: &str, suffix: &str) -> (r: bool)
    ensures
        r == ends_with(s@, suffix@),
{
    let n = s.unicode_len();
    let m = suffix.unicode_len();
    if n < m {
        return false;
    }
    let off = n - m;
    let mut i: usize = 0;
    while i < m
        invariant
            m <= n,
            n == s@.len(),
            m == suffix@.len(),
            off == n - m,
            i <= m,
            forall|j: int| 0 <= j < i ==> s@[off + j] == suffix@[j],
        decreases m - i,
    {
        if s.get_char(off + i) != suffix.get_char(i) {
            proof {
                assert(s@.subrange(s@.len() - suffix@.len(), s@.len() as int)[i as int] == s@[off
                    + i]);
            }
            return false;
        }
        i += 1;
    }
    proof {
        assert(s@.subrange(s@.len() - suffix@.len(), s@.len() as int) =~= suffix@);
    }
    true
}

/// `s` with trailing ASCII whitespace removed.
pub fn trim_end_str(s: &str) -> (r: &str)
    ensures
        r@ == trim_end_spaces(s@),
{
    let n = s.unicode_len();
    let mut end: usize = n;
    proof {
        assert(s@.subrange(0, n as int) =~= s@);
    }
    while end > 0
        invariant
            end <= n,
            n == s@.len(),
            trim_end_spaces(s@) == trim_end_spaces(s@.subrange(0, end as int)),
        decreases end,
    {
        let c = s.get_char(end - 1);
        if c == ' ' || c == '\t' || c == '\r' || c == '\n' {
            proof {
                let t = s@.subrange(0, end as int);
                assert(t.last() == c);
                assert(t.drop_last() =~= s@.subrange(0, end - 1));
            }
            end = end - 1;
        } else {
            let r = s.substring_char(0, end);
            proof {
                let t = s@.subrange(0, end as int);
                assert(t.last() == c);
                assert(trim_end_spaces(t) == t);
            }
            return r;
        }
    }
    let r = s.substring_char(0, 0);
    proof {
        assert(s@.subrange(0, 0) =~= Seq::<char>::empty());
    }
    r
}

/// The pieces of `s` between occurrences of `sep`, as owned strings.
pub fn split_str(s: &str, sep: char) -> (parts: Vec<String>)
    ensures
        parts.deep_view() == split_on(s@, sep),
{
    let n = s.unicode_len();
    let mut parts: Vec<String> = Vec::new();
    let mut start: usize = 0;
    proof {
        assert(s@.subrange(0, n as int) =~= s@);
        assert(parts.deep_view() + split_on(s@, sep) =~~= split_on(s@, sep));
    }
    loop
        invariant
            start <= n,
            n == s@.len(),
            split_on(s@, sep) == parts.deep_view() + split_on(
                s@.subrange(start as int, n as int),
                sep,
            ),
        decreases n - start,
    {
        let ghost old_dv = parts.deep_view();
        let ghost rest = s@.subrange(start as int, n as int);
        let next = find_char(s, sep, start);
        match next {
            Some(j) => {
                let piece = s.substring_char(start, j);
                parts.push(piece.to_owned());
                proof {
                    assert(rest[j - start] == s@[j as int]);
                    assert(forall|k: int| 0 <= k < j - start ==> rest[k] == s@[start + k]);
                    lemma_first_index_at(rest, sep, j - start);
                    lemma_split_on_head(rest, sep);
                    assert(rest.subrange(0, j - start) =~= s@.subrange(start as int, j as int));
                    assert(rest.subrange(j - start + 1, rest.len() as int) =~= s@.subrange(
                        j + 1,
                        n as int,
                    ));
                    assert(parts.deep_view() =~~= old_dv.push(piece@));
                    assert(old_dv + (seq![piece@] + split_on(s@.subrange(j + 1, n as int), sep))
                        =~~= old_dv.push(piece@) + split_on(s@.subrange(j + 1, n as int), sep));
                }
                start = j + 1;
            },
            None => {
                let piece = s.substring_char(start, n);
                parts.push(piece.to_owned());
                proof {
                    assert(forall|k: int| 0 <= k < rest.len() ==> rest[k] == s@[start + k]);
                    lemma_first_index_of(rest, sep);
                    assert(first_index_of(rest, sep) == -1);
                    lemma_split_on_head(rest, sep);
                    assert(parts.deep_view() =~~= old_dv.push(rest));
                    assert(old_dv + seq![rest] =~~= old_dv.push(rest));
                }
                return parts;
            },
        }
    }
}

/// The strings of `parts` joined with `sep` between consecutive entries.
pub fn join_strings(parts: &Vec<String>, sep: &str) -> (r: String)
    ensures
        r@ == join_with(parts.deep_view(), sep@),
{
    let mut r = String::new();
    let mut i: usize = 0;
    while i < parts.len()
        invariant
            i <= parts.len(),
            r@ == join_with(parts.deep_view().take(i as int), sep@),
        decreases parts.len() - i,
    {
        if i > 0 {
            r.append(sep);
        }
        r.append(parts[i].as_str());
        proof {
            let dv = parts.deep_view();
            lemma_join_with_push(dv.take(i as int), dv[i as int], sep@);
            assert(dv.take(i + 1) =~~= dv.take(i as int).push(dv[i as int]));
            if i == 0 {
                assert(Seq::<char>::empty() + dv[0] =~= dv[0]);
            }
        }
        i += 1;
    }
    proof {
        assert(parts.deep_view().take(parts.len() as int) =~~= parts.deep_view());
    }
    r
}

/// The concatenation of two string slices as an owned string.
pub fn concat2(a: &str, b: &str) -> (r: String)
    ensures
        r@ == a@ + b@,
{
    let mut r = a.to_owned();
    r.append(b);
    r
}

/// The concatenation of three string slices as an owned string.
pub fn concat3(a: &str, b: &str, c: &str) -> (r: String)
    ensures
        r@ == a@ + b@ + c@,
{
    let mut r = a.to_owned();
    r.append(b);
    r.append(c);
    r
}

} // verus!
