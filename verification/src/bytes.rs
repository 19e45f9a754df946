//! Byte-sequence helpers shared by the registry parser, the action compiler
//! and the renderers: equality, prefix test, substring search, and splitting
//! and joining on a separator byte (the registry's newline and space).

use vstd::prelude::*;

verus! {

/// The newline byte that separates registry lines.
pub const NL: u8 = 10;

/// The space byte that separates tokens inside a registry line.
pub const SP: u8 = 32;

/// The equals-sign byte that separates a registry key from its value.
pub const EQ: u8 = 61;

/// The double-quote byte around a device's name.
pub const QU: u8 = 34;

/// Holds when no byte of `s` equals `sep`.
pub open spec fn sep_free(s: Seq<u8>, sep: u8) -> bool {
    forall|i: int| 0 <= i < s.len() ==> s[i] != sep
}

/// The parts of `s` between occurrences of `sep`, in order; always at least
/// one part, and an occurrence at either end contributes an empty part, as
/// the standard library's `split` does.
pub open spec fn split_on(s: Seq<u8>, sep: u8) -> Seq<Seq<u8>>
    decreases s.len(),
{
    if s.len() == 0 {
        seq![Seq::<u8>::empty()]
    } else if s[0] == sep {
        seq![Seq::<u8>::empty()] + split_on(s.skip(1), sep)
    } else {
        let rest = split_on(s.skip(1), sep);
        seq![seq![s[0]] + rest[0]] + rest.skip(1)
    }
}

/// The parts joined back with `sep` between consecutive parts.
pub open spec fn join_on(parts: Seq<Seq<u8>>, sep: u8) -> Seq<u8>
    decreases parts.len(),
{
    if parts.len() == 0 {
        Seq::<u8>::empty()
    } else if parts.len() == 1 {
        parts[0]
    } else {
        parts[0] + seq![sep] + join_on(parts.skip(1), sep)
    }
}

/// `ndl` occurs contiguously somewhere inside `hay`.
pub open spec fn contains_sub(hay: Seq<u8>, ndl: Seq<u8>) -> bool {
    exists|i: int|
        0 <= i <= hay.len() - ndl.len() && #[trigger] hay.subrange(i, i + ndl.len()) == ndl
}

pub proof fn lemma_split_on_nonempty(s: Seq<u8>, sep: u8)
    ensures
        split_on(s, sep).len() >= 1,
    decreases s.len(),
{
    if s.len() == 0 {
    } else if s[0] == sep {
    } else {
        lemma_split_on_nonempty(s.skip(1), sep);
    }
}

/// Splitting a separator-free sequence yields that one part.
pub proof fn lemma_split_on_sep_free(s: Seq<u8>, sep: u8)
    requires
        sep_free(s, sep),
    ensures
        split_on(s, sep) == seq![s],
    decreases s.len(),
{
    if s.len() == 0 {
        assert(s =~= Seq::<u8>::empty());
        assert(split_on(s, sep) =~~= seq![s]);
    } else {
        assert(s[0] != sep);
        assert(sep_free(s.skip(1), sep)) by {
            assert(forall|i: int| 0 <= i < s.skip(1).len() ==> s.skip(1)[i] == s[i + 1]);
        }
        lemma_split_on_sep_free(s.skip(1), sep);
        let rest = split_on(s.skip(1), sep);
        assert(rest[0] == s.skip(1));
        assert(seq![s[0]] + s.skip(1) =~= s);
        assert(rest.skip(1) =~= Seq::<Seq<u8>>::empty());
        assert(split_on(s, sep) =~= seq![s]);
    }
}

/// Splitting `p + sep + t` for separator-free `p` peels `p` off the front.
pub proof fn lemma_split_on_append(p: Seq<u8>, t: Seq<u8>, sep: u8)
    requires
        sep_free(p, sep),
    ensures
        split_on(p + seq![sep] + t, sep) == seq![p] + split_on(t, sep),
    decreases p.len(),
{
    let s = p + seq![sep] + t;
    if p.len() == 0 {
        assert(s.len() > 0 && s[0] == sep);
        assert(s.skip(1) =~= t);
        assert(p =~= Seq::<u8>::empty());
        assert(split_on(s, sep) =~~= seq![p] + split_on(t, sep));
    } else {
        assert(s[0] == p[0]);
        assert(s[0] != sep);
        assert(sep_free(p.skip(1), sep)) by {
            assert(forall|i: int| 0 <= i < p.skip(1).len() ==> p.skip(1)[i] == p[i + 1]);
        }
        lemma_split_on_append(p.skip(1), t, sep);
        assert(s.skip(1) =~= p.skip(1) + seq![sep] + t);
        let rest = split_on(s.skip(1), sep);
        assert(rest == seq![p.skip(1)] + split_on(t, sep));
        assert(rest[0] == p.skip(1));
        assert(seq![s[0]] + rest[0] =~= p);
        assert(rest.skip(1) =~= split_on(t, sep));
        assert(split_on(s, sep) =~~= seq![p] + split_on(t, sep));
    }
}

/// Splitting inverts joining, when every part is free of the separator.
pub proof fn lemma_split_join(parts: Seq<Seq<u8>>, sep: u8)
    requires
        parts.len() >= 1,
        forall|i: int| 0 <= i < parts.len() ==> sep_free(#[trigger] parts[i], sep),
    ensures
        split_on(join_on(parts, sep), sep) == parts,
    decreases parts.len(),
{
    if parts.len() == 1 {
        lemma_split_on_sep_free(parts[0], sep);
        assert(seq![parts[0]] =~~= parts);
    } else {
        let tail = parts.skip(1);
        assert(forall|i: int| 0 <= i < tail.len() ==> sep_free(#[trigger] tail[i], sep)) by {
            assert(forall|i: int| 0 <= i < tail.len() ==> tail[i] == parts[i + 1]);
        }
        lemma_split_join(tail, sep);
        lemma_split_on_append(parts[0], join_on(tail, sep), sep);
        assert(join_on(parts, sep) == parts[0] + seq![sep] + join_on(tail, sep));
        assert(seq![parts[0]] + split_on(join_on(tail, sep), sep) =~~= parts);
    }
}

/// Exact byte-for-byte equality of two slices.
pub fn bytes_eq(a: &[u8], b: &[u8]) -> (r: bool)
    ensures
        r == (a@ == b@),
{
    if a.len() != b.len() {
        assert(a@ != b@);
        return false;
    }
    let n = a.len();
    let mut i: usize = 0;
    while i < n
        invariant
            n == a@.len() == b@.len(),
            0 <= i <= n,
            forall|j: int| 0 <= j < i ==> a@[j] == b@[j],
        decreases n - i,
    {
        if a[i] != b[i] {
            return false;
        }
        i += 1;
    }
    assert(a@ =~= b@);
    true
}

/// Whether `prefix` is a prefix of `s`.
pub fn starts_with(s: &[u8], prefix: &[u8]) -> (r: bool)
    ensures
        r == prefix@.is_prefix_of(s@),
{
    if prefix.len() > s.len() {
        return false;
    }
    let n = prefix.len();
    let mut i: usize = 0;
    while i < n
        invariant
            n == prefix@.len() <= s@.len(),
            0 <= i <= n,
            forall|j: int| 0 <= j < i ==> s@[j] == prefix@[j],
        decreases n - i,
    {
        if s[i] != prefix[i] {
            assert(!prefix@.is_prefix_of(s@));
            return false;
        }
        i += 1;
    }
    assert(prefix@ =~= s@.take(n as int));
    true
}

/// Whether `ndl` matches `hay` at offset `at`.
fn matches_at(hay: &[u8], ndl: &[u8], at: usize) -> (r: bool)
    requires
        at + ndl@.len() <= hay@.len(),
    ensures
        r == (hay@.subrange(at as int, at + ndl@.len()) == ndl@),
{
    let n = ndl.len();
    let hl = hay.len();
    let mut j: usize = 0;
    while j < n
        invariant
            n == ndl@.len(),
            hl == hay@.len(),
            at + n <= hay@.len(),
            0 <= j <= n,
            forall|k: int| 0 <= k < j ==> hay@[at + k] == ndl@[k],
        decreases n - j,
    {
        if hay[at + j] != ndl[j] {
            assert(hay@.subrange(at as int, at + n) != ndl@) by {
                assert(hay@.subrange(at as int, at + n)[j as int] == hay@[at + j]);
            }
            return false;
        }
        j += 1;
    }
    assert(hay@.subrange(at as int, at + n) =~= ndl@);
    true
}

/// Substring search: whether `ndl` occurs contiguously inside `hay`.
pub fn contains_bytes(hay: &[u8], ndl: &[u8]) -> (r: bool)
    ensures
        r == contains_sub(hay@, ndl@),
{
    if ndl.len() == 0 {
        proof {
            let z: int = 0;
            assert(hay@.subrange(z, z + ndl@.len()) =~= ndl@);
            assert(contains_sub(hay@, ndl@));
        }
        return true;
    }
    if ndl.len() > hay.len() {
        return false;
    }
    let hl = hay.len();
    let nl = ndl.len();
    let last = hl - nl;
    let mut i: usize = 0;
    loop
        invariant
            hl == hay@.len(),
            nl == ndl@.len(),
            1 <= nl <= hl,
            last == hay@.len() - ndl@.len(),
            0 <= i <= last + 1,
            forall|k: int|
                0 <= k < i ==> #[trigger] hay@.subrange(k, k + ndl@.len()) != ndl@,
        decreases last + 1 - i,
    {
        if i > last {
            assert(!contains_sub(hay@, ndl@));
            return false;
        }
        if matches_at(hay, ndl, i) {
            assert(contains_sub(hay@, ndl@));
            return true;
        }
        i += 1;
    }
}

/// Glue for the loop proofs below: the first part of the remaining split,
/// extended on the left with what the loop has gathered so far.
pub open spec fn cons_head(pre: Seq<u8>, parts: Seq<Seq<u8>>) -> Seq<Seq<u8>> {
    seq![pre + parts[0]] + parts.skip(1)
}

/// Splits `s` at every occurrence of `sep`.
pub fn split_bytes(s: &[u8], sep: u8) -> (parts: Vec<Vec<u8>>)
    ensures
        parts.deep_view() == split_on(s@, sep),
{
    let n = s.len();
    let mut acc: Vec<Vec<u8>> = Vec::new();
    let mut cur: Vec<u8> = Vec::new();
    let mut i: usize = 0;
    proof {
        lemma_split_on_nonempty(s@, sep);
        assert(acc.deep_view() =~~= Seq::<Seq<u8>>::empty());
        assert(s@.skip(0) =~= s@);
        assert(cur@ + split_on(s@, sep)[0] =~= split_on(s@, sep)[0]);
        assert(cons_head(cur@, split_on(s@, sep)) =~~= split_on(s@, sep));
        assert(acc.deep_view() + cons_head(cur@, split_on(s@.skip(0), sep)) =~~= split_on(
            s@,
            sep,
        ));
    }
    while i < n
        invariant
            n == s@.len(),
            0 <= i <= n,
            split_on(s@, sep) == acc.deep_view() + cons_head(cur@, split_on(s@.skip(i as int), sep)),
        decreases n - i,
    {
        let ghost tail = split_on(s@.skip(i as int), sep);
        proof {
            assert(s@.skip(i as int).len() > 0);
            assert(s@.skip(i as int)[0] == s@[i as int]);
            assert(s@.skip(i as int).skip(1) =~= s@.skip(i + 1));
            lemma_split_on_nonempty(s@.skip(i + 1), sep);
        }
        let ghost tail1 = split_on(s@.skip(i + 1), sep);
        let c = s[i];
        if c == sep {
            proof {
                // tail == [empty] + tail1, so gathering `cur` closes one part.
                assert(tail =~~= seq![Seq::<u8>::empty()] + tail1);
                assert(tail[0] =~= Seq::<u8>::empty());
                assert(cur@ + tail[0] =~= cur@);
                assert(tail.skip(1) =~~= tail1);
                assert(cons_head(cur@, tail) =~~= seq![cur@] + tail1);
            }
            let ghost old_acc = acc.deep_view();
            let ghost cur_v = cur@;
            acc.push(cur);
            cur = Vec::new();
            proof {
                assert(acc.deep_view() =~~= old_acc.push(cur_v));
                assert(cur@ + tail1[0] =~= tail1[0]);
                assert(cons_head(cur@, tail1) =~~= tail1);
                assert(split_on(s@, sep) =~~= acc.deep_view() + cons_head(
                    cur@,
                    split_on(s@.skip(i + 1), sep),
                ));
            }
        } else {
            proof {
                // tail == cons_head([c], tail1); absorbing c extends the head.
                assert(tail =~~= seq![seq![c] + tail1[0]] + tail1.skip(1));
                assert(cur@ + (seq![c] + tail1[0]) =~= (cur@.push(c)) + tail1[0]);
                assert(cons_head(cur@, tail) =~~= cons_head(cur@.push(c), tail1));
            }
            cur.push(c);
            proof {
                assert(split_on(s@, sep) =~~= acc.deep_view() + cons_head(
                    cur@,
                    split_on(s@.skip(i + 1), sep),
                ));
            }
        }
        i += 1;
    }
    proof {
        assert(s@.skip(n as int) =~= Seq::<u8>::empty());
        assert(split_on(s@.skip(n as int), sep) == seq![Seq::<u8>::empty()]);
        assert(cur@ + Seq::<u8>::empty() =~= cur@);
        assert(cons_head(cur@, split_on(s@.skip(n as int), sep)) =~~= seq![cur@]);
    }
    let ghost old_acc = acc.deep_view();
    let ghost cur_v = cur@;
    acc.push(cur);
    proof {
        assert(acc.deep_view() =~~= old_acc.push(cur_v));
        assert(acc.deep_view() =~~= split_on(s@, sep));
    }
    acc
}

/// The index of the first occurrence of `b` in `s`, or -1 when absent.
pub open spec fn find_first(s: Seq<u8>, b: u8) -> int
    decreases s.len(),
{
    if s.len() == 0 {
        -1
    } else if s[0] == b {
        0
    } else {
        let r = find_first(s.skip(1), b);
        if r < 0 {
            -1
        } else {
            r + 1
        }
    }
}

/// What `find_first` returns: -1 exactly on separator-free input, else the
/// least index holding `b`.
pub proof fn lemma_find_first(s: Seq<u8>, b: u8)
    ensures
        (find_first(s, b) == -1) == sep_free(s, b),
        find_first(s, b) >= 0 ==> 0 <= find_first(s, b) < s.len() && s[find_first(s, b)] == b
            && (forall|j: int| 0 <= j < find_first(s, b) ==> s[j] != b),
    decreases s.len(),
{
    if s.len() == 0 {
    } else if s[0] == b {
    } else {
        lemma_find_first(s.skip(1), b);
        let r = find_first(s.skip(1), b);
        if r < 0 {
            assert forall|i: int| 0 <= i < s.len() implies s[i] != b by {
                if i >= 1 {
                    assert(s.skip(1)[i - 1] == s[i]);
                }
            }
        } else {
            assert(s[r + 1] == s.skip(1)[r]);
            assert forall|j: int| 0 <= j < r + 1 implies s[j] != b by {
                if j >= 1 {
                    assert(s.skip(1)[j - 1] == s[j]);
                }
            }
        }
    }
}

/// Finding in `a + [b] + c` stops at the planted separator when `a` is free
/// of it.
pub proof fn lemma_find_first_planted(a: Seq<u8>, c: Seq<u8>, b: u8)
    requires
        sep_free(a, b),
    ensures
        find_first(a + seq![b] + c, b) == a.len(),
    decreases a.len(),
{
    let s = a + seq![b] + c;
    if a.len() == 0 {
        assert(s[0] == b);
    } else {
        assert(s[0] == a[0]);
        assert(sep_free(a.skip(1), b)) by {
            assert(forall|i: int| 0 <= i < a.skip(1).len() ==> a.skip(1)[i] == a[i + 1]);
        }
        lemma_find_first_planted(a.skip(1), c, b);
        assert(s.skip(1) =~= a.skip(1) + seq![b] + c);
    }
}

/// The first index of `b` in `s`, if any.
pub fn find_byte(s: &[u8], b: u8) -> (r: Option<usize>)
    ensures
        match r {
            Some(i) => find_first(s@, b) == i,
            None => find_first(s@, b) == -1,
        },
{
    let n = s.len();
    let mut i: usize = 0;
    while i < n
        invariant
            n == s@.len(),
            0 <= i <= n,
            forall|j: int| 0 <= j < i ==> s@[j] != b,
        decreases n - i,
    {
        if s[i] == b {
            proof {
                lemma_find_first(s@, b);
            }
            return Some(i);
        }
        i += 1;
    }
    proof {
        lemma_find_first(s@, b);
    }
    None
}

/// Holds when `s` has no two adjacent newline bytes: splitting it on a
/// blank line yields `s` itself.
pub open spec fn blank_free(s: Seq<u8>) -> bool {
    forall|i: int| 0 <= i < s.len() - 1 ==> !(s[i] == NL && #[trigger] s[i + 1] == NL)
}

/// The parts of `s` between blank lines (two adjacent newlines), in order,
/// as the standard library's `split` on a two-byte pattern.
pub open spec fn split_blank(s: Seq<u8>) -> Seq<Seq<u8>>
    decreases s.len(),
{
    if s.len() < 2 {
        seq![s]
    } else if s[0] == NL && s[1] == NL {
        seq![Seq::<u8>::empty()] + split_blank(s.skip(2))
    } else {
        let rest = split_blank(s.skip(1));
        seq![seq![s[0]] + rest[0]] + rest.skip(1)
    }
}

/// The parts joined back with a blank line between consecutive parts.
pub open spec fn join_blank(parts: Seq<Seq<u8>>) -> Seq<u8>
    decreases parts.len(),
{
    if parts.len() == 0 {
        Seq::<u8>::empty()
    } else if parts.len() == 1 {
        parts[0]
    } else {
        parts[0] + seq![NL, NL] + join_blank(parts.skip(1))
    }
}

pub proof fn lemma_split_blank_nonempty(s: Seq<u8>)
    ensures
        split_blank(s).len() >= 1,
    decreases s.len(),
{
    if s.len() < 2 {
    } else if s[0] == NL && s[1] == NL {
    } else {
        lemma_split_blank_nonempty(s.skip(1));
    }
}

/// Splitting a sequence with no blank line yields that one part.
pub proof fn lemma_split_blank_free(s: Seq<u8>)
    requires
        blank_free(s),
    ensures
        split_blank(s) == seq![s],
    decreases s.len(),
{
    if s.len() < 2 {
    } else {
        assert(!(s[0] == NL && s[1] == NL)) by {
            assert(s[0int + 1] == s[1int]);
        }
        assert(blank_free(s.skip(1))) by {
            assert(forall|i: int| 0 <= i < s.skip(1).len() ==> s.skip(1)[i] == s[i + 1]);
        }
        lemma_split_blank_free(s.skip(1));
        let rest = split_blank(s.skip(1));
        assert(rest[0] == s.skip(1));
        assert(seq![s[0]] + s.skip(1) =~= s);
        assert(rest.skip(1) =~= Seq::<Seq<u8>>::empty());
        assert(split_blank(s) =~~= seq![s]);
    }
}

/// Splitting `p + blank + t` peels a blank-free `p` that does not end in a
/// newline off the front.
pub proof fn lemma_split_blank_append(p: Seq<u8>, t: Seq<u8>)
    requires
        blank_free(p),
        p.len() > 0 ==> p.last() != NL,
    ensures
        split_blank(p + seq![NL, NL] + t) == seq![p] + split_blank(t),
    decreases p.len(),
{
    let s = p + seq![NL, NL] + t;
    if p.len() == 0 {
        assert(s[0] == NL && s[1] == NL);
        assert(s.skip(2) =~= t);
        assert(p =~= Seq::<u8>::empty());
        assert(split_blank(s) =~~= seq![p] + split_blank(t));
    } else {
        assert(s[0] == p[0]);
        assert(s.len() >= 3);
        assert(!(s[0] == NL && s[1] == NL)) by {
            if p.len() == 1 {
                assert(s[0] == p.last());
            } else {
                assert(s[1] == p[1]);
                assert(!(p[0int] == NL && p[0int + 1] == NL));
            }
        }
        assert(blank_free(p.skip(1))) by {
            assert forall|i: int|
                0 <= i < p.skip(1).len() - 1 implies !(p.skip(1)[i] == NL && #[trigger] p.skip(1)[i
                + 1] == NL) by {
                assert(p.skip(1)[i] == p[i + 1]);
                assert(p.skip(1)[i + 1] == p[(i + 1) + 1]);
                assert(!(p[i + 1] == NL && p[(i + 1) + 1] == NL));
            }
        }
        assert(p.skip(1).len() > 0 ==> p.skip(1).last() == p.last());
        lemma_split_blank_append(p.skip(1), t);
        assert(s.skip(1) =~= p.skip(1) + seq![NL, NL] + t);
        let rest = split_blank(s.skip(1));
        assert(rest == seq![p.skip(1)] + split_blank(t));
        assert(rest[0] == p.skip(1));
        assert(seq![s[0]] + rest[0] =~= p);
        assert(rest.skip(1) =~= split_blank(t));
        assert(split_blank(s) =~~= seq![p] + split_blank(t));
    }
}

/// Splitting on blank lines inverts joining with them, when no part holds a
/// blank line or ends with a newline.
pub proof fn lemma_split_join_blank(parts: Seq<Seq<u8>>)
    requires
        parts.len() >= 1,
        forall|i: int| 0 <= i < parts.len() ==> blank_free(#[trigger] parts[i]),
        forall|i: int|
            0 <= i < parts.len() ==> (#[trigger] parts[i]).len() > 0 ==> parts[i].last() != NL,
    ensures
        split_blank(join_blank(parts)) == parts,
    decreases parts.len(),
{
    if parts.len() == 1 {
        lemma_split_blank_free(parts[0]);
        assert(seq![parts[0]] =~~= parts);
    } else {
        let tail = parts.skip(1);
        assert(forall|i: int| 0 <= i < tail.len() ==> tail[i] == parts[i + 1]);
        lemma_split_join_blank(tail);
        lemma_split_blank_append(parts[0], join_blank(tail));
        assert(join_blank(parts) == parts[0] + seq![NL, NL] + join_blank(tail));
        assert(seq![parts[0]] + split_blank(join_blank(tail)) =~~= parts);
    }
}

/// As `cons_head`, for the blank-line split.
pub open spec fn cons_head_blank(pre: Seq<u8>, parts: Seq<Seq<u8>>) -> Seq<Seq<u8>> {
    seq![pre + parts[0]] + parts.skip(1)
}

/// Splits `s` at every blank line (two adjacent newlines).
pub fn split_blank_bytes(s: &[u8]) -> (parts: Vec<Vec<u8>>)
    ensures
        parts.deep_view() == split_blank(s@),
{
    let n = s.len();
    let mut acc: Vec<Vec<u8>> = Vec::new();
    let mut cur: Vec<u8> = Vec::new();
    let mut i: usize = 0;
    proof {
        lemma_split_blank_nonempty(s@);
        assert(acc.deep_view() =~~= Seq::<Seq<u8>>::empty());
        assert(s@.skip(0) =~= s@);
        assert(cur@ + split_blank(s@)[0] =~= split_blank(s@)[0]);
        assert(acc.deep_view() + cons_head_blank(cur@, split_blank(s@.skip(0))) =~~= split_blank(
            s@,
        ));
    }
    while i < n
        invariant
            n == s@.len(),
            0 <= i <= n,
            split_blank(s@) == acc.deep_view() + cons_head_blank(
                cur@,
                split_blank(s@.skip(i as int)),
            ),
        decreases n - i,
    {
        let ghost tail = split_blank(s@.skip(i as int));
        proof {
            assert(s@.skip(i as int).len() > 0);
            assert(s@.skip(i as int)[0] == s@[i as int]);
            if i + 1 < n {
                assert(s@.skip(i as int)[1] == s@[i + 1]);
            }
            assert(s@.skip(i as int).skip(1) =~= s@.skip(i + 1));
            if i + 2 <= n {
                assert(s@.skip(i as int).skip(2) =~= s@.skip(i + 2));
            }
        }
        if i + 1 < n && s[i] == NL && s[i + 1] == NL {
            let ghost tail2 = split_blank(s@.skip(i + 2));
            proof {
                lemma_split_blank_nonempty(s@.skip(i + 2));
                assert(tail =~~= seq![Seq::<u8>::empty()] + tail2);
                assert(tail[0] =~= Seq::<u8>::empty());
                assert(cur@ + tail[0] =~= cur@);
                assert(tail.skip(1) =~~= tail2);
                assert(cons_head_blank(cur@, tail) =~~= seq![cur@] + tail2);
            }
            let ghost old_acc = acc.deep_view();
            let ghost cur_v = cur@;
            acc.push(cur);
            cur = Vec::new();
            proof {
                assert(acc.deep_view() =~~= old_acc.push(cur_v));
                assert(cur@ + tail2[0] =~= tail2[0]);
                assert(cons_head_blank(cur@, tail2) =~~= tail2);
                assert(split_blank(s@) =~~= acc.deep_view() + cons_head_blank(
                    cur@,
                    split_blank(s@.skip(i + 2)),
                ));
            }
            i += 2;
        } else {
            let ghost tail1 = split_blank(s@.skip(i + 1));
            proof {
                lemma_split_blank_nonempty(s@.skip(i + 1));
                if s@.skip(i as int).len() < 2 {
                    assert(i + 1 == n);
                    assert(s@.skip(i + 1) =~= Seq::<u8>::empty());
                    assert(tail == seq![s@.skip(i as int)]);
                    assert(s@.skip(i as int) =~= seq![s@[i as int]]);
                    assert(tail1 == seq![Seq::<u8>::empty()]);
                    assert(tail =~~= seq![seq![s@[i as int]] + tail1[0]] + tail1.skip(1));
                } else {
                    assert(tail =~~= seq![seq![s@[i as int]] + tail1[0]] + tail1.skip(1));
                }
                assert(cur@ + (seq![s@[i as int]] + tail1[0]) =~= (cur@.push(s@[i as int]))
                    + tail1[0]);
                assert(cons_head_blank(cur@, tail) =~~= cons_head_blank(
                    cur@.push(s@[i as int]),
                    tail1,
                ));
            }
            let c = s[i];
            cur.push(c);
            proof {
                assert(split_blank(s@) =~~= acc.deep_view() + cons_head_blank(
                    cur@,
                    split_blank(s@.skip(i + 1)),
                ));
            }
            i += 1;
        }
    }
    proof {
        assert(s@.skip(n as int) =~= Seq::<u8>::empty());
        assert(split_blank(s@.skip(n as int)) == seq![Seq::<u8>::empty()]);
        assert(cur@ + Seq::<u8>::empty() =~= cur@);
        assert(cons_head_blank(cur@, split_blank(s@.skip(n as int))) =~~= seq![cur@]);
    }
    let ghost old_acc = acc.deep_view();
    let ghost cur_v = cur@;
    acc.push(cur);
    proof {
        assert(acc.deep_view() =~~= old_acc.push(cur_v));
        assert(acc.deep_view() =~~= split_blank(s@));
    }
    acc
}

/// Joining one more part appends a separator (when anything precedes) and
/// the part.
pub proof fn lemma_join_push(parts: Seq<Seq<u8>>, p: Seq<u8>, sep: u8)
    ensures
        join_on(parts.push(p), sep) == if parts.len() == 0 {
            p
        } else {
            join_on(parts, sep) + seq![sep] + p
        },
    decreases parts.len(),
{
    let whole = parts.push(p);
    if parts.len() == 0 {
        assert(whole.len() == 1);
        assert(whole[0] == p);
    } else {
        assert(whole[0] == parts[0]);
        assert(whole.skip(1) =~~= parts.skip(1).push(p));
        lemma_join_push(parts.skip(1), p, sep);
        if parts.len() == 1 {
            assert(parts.skip(1).len() == 0);
            assert(join_on(whole, sep) == parts[0] + seq![sep] + p);
            assert(join_on(parts, sep) == parts[0]);
        } else {
            assert(join_on(whole, sep) == parts[0] + seq![sep] + (join_on(parts.skip(1), sep)
                + seq![sep] + p));
            assert(join_on(parts, sep) == parts[0] + seq![sep] + join_on(parts.skip(1), sep));
            assert(parts[0] + seq![sep] + (join_on(parts.skip(1), sep) + seq![sep] + p) =~= (
            parts[0] + seq![sep] + join_on(parts.skip(1), sep)) + seq![sep] + p);
        }
    }
}

/// As `lemma_join_push`, for the blank-line join.
pub proof fn lemma_join_blank_push(parts: Seq<Seq<u8>>, p: Seq<u8>)
    ensures
        join_blank(parts.push(p)) == if parts.len() == 0 {
            p
        } else {
            join_blank(parts) + seq![NL, NL] + p
        },
    decreases parts.len(),
{
    let whole = parts.push(p);
    if parts.len() == 0 {
        assert(whole.len() == 1);
        assert(whole[0] == p);
    } else {
        assert(whole[0] == parts[0]);
        assert(whole.skip(1) =~~= parts.skip(1).push(p));
        lemma_join_blank_push(parts.skip(1), p);
        if parts.len() == 1 {
            assert(parts.skip(1).len() == 0);
            assert(join_blank(whole) == parts[0] + seq![NL, NL] + p);
            assert(join_blank(parts) == parts[0]);
        } else {
            assert(join_blank(whole) == parts[0] + seq![NL, NL] + (join_blank(parts.skip(1))
                + seq![NL, NL] + p));
            assert(join_blank(parts) == parts[0] + seq![NL, NL] + join_blank(parts.skip(1)));
            assert(parts[0] + seq![NL, NL] + (join_blank(parts.skip(1)) + seq![NL, NL] + p) =~= (
            parts[0] + seq![NL, NL] + join_blank(parts.skip(1))) + seq![NL, NL] + p);
        }
    }
}

/// Joins the parts with `sep` between consecutive parts.
pub fn join_bytes(parts: &Vec<Vec<u8>>, sep: u8) -> (r: Vec<u8>)
    ensures
        r@ == join_on(parts.deep_view(), sep),
{
    let ghost pdv = parts.deep_view();
    let n = parts.len();
    let mut r: Vec<u8> = Vec::new();
    let mut k: usize = 0;
    proof {
        assert(pdv.take(0) =~~= Seq::<Seq<u8>>::empty());
    }
    while k < n
        invariant
            n == parts@.len(),
            pdv == parts.deep_view(),
            0 <= k <= n,
            r@ == join_on(pdv.take(k as int), sep),
        decreases n - k,
    {
        proof {
            assert(pdv.take(k + 1) =~~= pdv.take(k as int).push(pdv[k as int]));
            lemma_join_push(pdv.take(k as int), pdv[k as int], sep);
            assert(parts@[k as int]@ =~= pdv[k as int]);
        }
        if k > 0 {
            r.push(sep);
        }
        push_all(&mut r, parts[k].as_slice());
        proof {
            if k == 0 {
                assert(Seq::<u8>::empty() + pdv[0] =~= pdv[0]);
            }
        }
        k += 1;
    }
    proof {
        assert(pdv.take(n as int) =~~= pdv);
    }
    r
}

/// A sequence with `pre` in front keeps it as a prefix; skipping the prefix
/// returns the rest.
pub proof fn lemma_prefix_concat(pre: Seq<u8>, rest: Seq<u8>)
    ensures
        pre.is_prefix_of(pre + rest),
        (pre + rest).skip(pre.len() as int) == rest,
{
    assert((pre + rest).subrange(0, pre.len() as int) =~= pre);
    assert((pre + rest).skip(pre.len() as int) =~= rest);
}

/// Concatenation preserves freedom from a byte.
pub proof fn lemma_sep_free_concat(a: Seq<u8>, b: Seq<u8>, sep: u8)
    requires
        sep_free(a, sep),
        sep_free(b, sep),
    ensures
        sep_free(a + b, sep),
{
    assert forall|i: int| 0 <= i < (a + b).len() implies (a + b)[i] != sep by {
        if i < a.len() {
            assert((a + b)[i] == a[i]);
        } else {
            assert((a + b)[i] == b[i - a.len()]);
        }
    }
}

/// A join keeps freedom from a byte when every part has it and the
/// separator is another byte.
pub proof fn lemma_join_sep_free(parts: Seq<Seq<u8>>, jsep: u8, sep: u8)
    requires
        jsep != sep,
        forall|i: int| 0 <= i < parts.len() ==> sep_free(#[trigger] parts[i], sep),
    ensures
        sep_free(join_on(parts, jsep), sep),
    decreases parts.len(),
{
    if parts.len() == 0 {
    } else if parts.len() == 1 {
        assert(join_on(parts, jsep) == parts[0]);
    } else {
        assert(forall|i: int| 0 <= i < parts.skip(1).len() ==> parts.skip(1)[i] == parts[i + 1]);
        lemma_join_sep_free(parts.skip(1), jsep, sep);
        assert(sep_free(seq![jsep], sep));
        lemma_sep_free_concat(parts[0], seq![jsep], sep);
        lemma_sep_free_concat(parts[0] + seq![jsep], join_on(parts.skip(1), jsep), sep);
        assert(parts[0] + seq![jsep] + join_on(parts.skip(1), jsep) == join_on(parts, jsep));
    }
}

/// Joining nonempty newline-free lines with single newlines yields a block
/// with no blank line inside, not starting or ending with a newline.
pub proof fn lemma_join_lines_blank_free(lines: Seq<Seq<u8>>)
    requires
        lines.len() >= 1,
        forall|i: int| 0 <= i < lines.len() ==> sep_free(#[trigger] lines[i], NL),
        forall|i: int| 0 <= i < lines.len() ==> (#[trigger] lines[i]).len() > 0,
    ensures
        blank_free(join_on(lines, NL)),
        join_on(lines, NL).len() > 0,
        join_on(lines, NL)[0] != NL,
        join_on(lines, NL).last() != NL,
    decreases lines.len(),
{
    let s = join_on(lines, NL);
    if lines.len() == 1 {
        assert(s == lines[0]);
        assert(blank_free(s));
    } else {
        let tail = lines.skip(1);
        assert(forall|i: int| 0 <= i < tail.len() ==> tail[i] == lines[i + 1]);
        lemma_join_lines_blank_free(tail);
        let rest = join_on(tail, NL);
        assert(s == lines[0] + seq![NL] + rest);
        let l0 = lines[0];
        assert forall|i: int| 0 <= i < s.len() - 1 implies !(s[i] == NL && #[trigger] s[i + 1]
            == NL) by {
            if i + 1 < l0.len() {
                assert(s[i] == l0[i]);
            } else if i + 1 == l0.len() {
                assert(s[i] == l0[i]);
                assert(s[i] != NL);
            } else if i == l0.len() {
                assert(s[i + 1] == rest[0]);
                assert(s[i + 1] != NL);
            } else {
                assert(s[i] == rest[i - l0.len() - 1]);
                assert(s[i + 1] == rest[(i - l0.len() - 1) + 1]);
                assert(!(rest[i - l0.len() - 1] == NL && rest[(i - l0.len() - 1) + 1] == NL));
            }
        }
        assert(s[0] == l0[0]);
        assert(s.last() == rest.last());
    }
}

/// Appends all of `src` to `dst`.
pub fn push_all(dst: &mut Vec<u8>, src: &[u8])
    ensures
        final(dst)@ == old(dst)@ + src@,
{
    let n = src.len();
    let mut i: usize = 0;
    while i < n
        invariant
            n == src@.len(),
            0 <= i <= n,
            dst@ == old(dst)@ + src@.take(i as int),
        decreases n - i,
    {
        proof {
            assert(old(dst)@ + src@.take(i + 1) =~= (old(dst)@ + src@.take(i as int)).push(
                src@[i as int],
            ));
        }
        dst.push(src[i]);
        i += 1;
    }
    proof {
        assert(src@.take(n as int) =~= src@);
    }
}

} // verus!
