//! Byte sequences seen as newline-separated lines: splitting, joining,
//! prefix tests, and removal of lines that start with a given name.
//!
//! A header block is a single byte sequence whose lines are separated by the
//! byte `10` (`'\n'`). `split_lines` and `join_lines` are exact inverses, and
//! the lemmas here relate them to appending and removing single lines, which
//! is all the commit model does to a header block.

use vstd::prelude::*;

verus! {

/// `p` is a prefix of `s`.
pub open spec fn seq_starts_with<A>(s: Seq<A>, p: Seq<A>) -> bool {
    p.len() <= s.len() && s.subrange(0, p.len() as int) == p
}

/// Index of the first occurrence of `b` in `s`, or `s.len()` if absent.
pub open spec fn find_byte(s: Seq<u8>, b: u8) -> int
    decreases s.len(),
{
    if s.len() == 0 {
        0
    } else if s[0] == b {
        0
    } else {
        1 + find_byte(s.drop_first(), b)
    }
}

/// What `find_byte` returns: an in-range index that holds `b` and is preceded
/// only by other bytes, or `s.len()` when `b` does not occur.
pub proof fn lemma_find_byte(s: Seq<u8>, b: u8)
    ensures
        0 <= find_byte(s, b) <= s.len(),
        find_byte(s, b) < s.len() ==> s[find_byte(s, b)] == b,
        forall|j: int| 0 <= j < find_byte(s, b) ==> s[j] != b,
    decreases s.len(),
{
    if s.len() == 0 || s[0] == b {
    } else {
        let t = s.drop_first();
        lemma_find_byte(t, b);
        let i = find_byte(s, b);
        assert forall|j: int| 0 <= j < i implies s[j] != b by {
            if j > 0 {
                assert(t[j - 1] == s[j]);
            }
        }
        if i < s.len() {
            assert(s[i] == t[i - 1]);
        }
    }
}

/// Converse characterization: an index that holds `b` and is preceded only by
/// other bytes (or `s.len()` when no index holds `b`) is what `find_byte`
/// returns.
pub proof fn lemma_find_byte_is(s: Seq<u8>, b: u8, k: int)
    requires
        0 <= k <= s.len(),
        forall|j: int| 0 <= j < k ==> s[j] != b,
        k < s.len() ==> s[k] == b,
        k == s.len() ==> forall|j: int| 0 <= j < s.len() ==> s[j] != b,
    ensures
        find_byte(s, b) == k,
    decreases s.len(),
{
    if s.len() == 0 {
    } else if s[0] == b {
        assert(k == 0);
    } else {
        let t = s.drop_first();
        assert(forall|j: int| 0 <= j < t.len() ==> t[j] == s[j + 1]);
        assert(k >= 1) by {
            if k == 0 {
                assert(k < s.len() && s[k] == b);
            }
        }
        lemma_find_byte_is(t, b, k - 1);
    }
}

/// The lines of `s`: maximal runs between occurrences of the byte `10`.
/// Always at least one line; an empty `s` gives one empty line.
pub open spec fn split_lines(s: Seq<u8>) -> Seq<Seq<u8>>
    decreases s.len(),
{
    let i = find_byte(s, 10);
    if 0 <= i < s.len() {
        seq![s.subrange(0, i)] + split_lines(s.subrange(i + 1, s.len() as int))
    } else {
        seq![s]
    }
}

/// The lines joined back with the byte `10` between neighbours.
pub open spec fn join_lines(ls: Seq<Seq<u8>>) -> Seq<u8>
    decreases ls.len(),
{
    if ls.len() == 0 {
        Seq::empty()
    } else if ls.len() == 1 {
        ls[0]
    } else {
        ls[0] + seq![10u8] + join_lines(ls.drop_first())
    }
}

/// The lines of `ls` that do not start with `name`, in order.
pub open spec fn remove_matching(ls: Seq<Seq<u8>>, name: Seq<u8>) -> Seq<Seq<u8>>
    decreases ls.len(),
{
    if ls.len() == 0 {
        Seq::empty()
    } else if seq_starts_with(ls[0], name) {
        remove_matching(ls.drop_first(), name)
    } else {
        seq![ls[0]] + remove_matching(ls.drop_first(), name)
    }
}

pub proof fn lemma_split_lines_nonempty(s: Seq<u8>)
    ensures
        split_lines(s).len() >= 1,
{
}

/// Joining the split of `s` gives `s` back.
pub proof fn lemma_join_split(s: Seq<u8>)
    ensures
        join_lines(split_lines(s)) == s,
    decreases s.len(),
{
    let i = find_byte(s, 10);
    lemma_find_byte(s, 10);
    if 0 <= i < s.len() {
        let head = s.subrange(0, i);
        let rest = s.subrange(i + 1, s.len() as int);
        lemma_join_split(rest);
        let rs = split_lines(rest);
        lemma_split_lines_nonempty(rest);
        let ls = seq![head] + rs;
        assert(ls.len() >= 2);
        assert(ls[0] == head);
        assert(ls.drop_first() =~= rs);
        assert(join_lines(ls) == head + seq![10u8] + join_lines(rs));
        assert(head + seq![10u8] + rest =~= s);
    }
}

/// Appending a separator and a line without separators adds exactly one line
/// to the split.
pub proof fn lemma_split_append_line(s: Seq<u8>, line: Seq<u8>)
    requires
        forall|j: int| 0 <= j < line.len() ==> line[j] != 10,
    ensures
        split_lines(s + seq![10u8] + line) == split_lines(s) + seq![line],
    decreases s.len(),
{
    let ext = s + seq![10u8] + line;
    let i = find_byte(s, 10);
    lemma_find_byte(s, 10);
    if 0 <= i < s.len() {
        assert(forall|j: int| 0 <= j < i ==> ext[j] == s[j]);
        assert(ext[i] == s[i]);
        lemma_find_byte_is(ext, 10, i);
        let rest = s.subrange(i + 1, s.len() as int);
        lemma_split_append_line(rest, line);
        assert(ext.subrange(0, i) =~= s.subrange(0, i));
        assert(ext.subrange(i + 1, ext.len() as int) =~= rest + seq![10u8] + line);
        assert(split_lines(ext) =~~= split_lines(s) + seq![line]);
    } else {
        let n = s.len() as int;
        assert(forall|j: int| 0 <= j < n ==> ext[j] == s[j] && s[j] != 10);
        assert(ext[n] == 10);
        lemma_find_byte_is(ext, 10, n);
        assert(ext.subrange(0, n) =~= s);
        assert(ext.subrange(n + 1, ext.len() as int) =~= line);
        lemma_find_byte_is(line, 10, line.len() as int);
        assert(split_lines(line) == seq![line]);
        assert(split_lines(ext) =~~= split_lines(s) + seq![line]);
    }
}

/// Removal distributes over concatenation of line lists.
pub proof fn lemma_remove_concat(ls1: Seq<Seq<u8>>, ls2: Seq<Seq<u8>>, name: Seq<u8>)
    ensures
        remove_matching(ls1 + ls2, name) == remove_matching(ls1, name) + remove_matching(
            ls2,
            name,
        ),
    decreases ls1.len(),
{
    if ls1.len() == 0 {
        assert(ls1 + ls2 =~= ls2);
        assert(remove_matching(ls1, name) + remove_matching(ls2, name) =~= remove_matching(
            ls2,
            name,
        ));
    } else {
        let c = ls1 + ls2;
        assert(c[0] == ls1[0]);
        assert(c.drop_first() =~= ls1.drop_first() + ls2);
        lemma_remove_concat(ls1.drop_first(), ls2, name);
        if seq_starts_with(ls1[0], name) {
        } else {
            assert(remove_matching(c, name) =~= remove_matching(ls1, name) + remove_matching(
                ls2,
                name,
            ));
        }
    }
}

/// Removal of a single line.
pub proof fn lemma_remove_single(l: Seq<u8>, name: Seq<u8>)
    ensures
        seq_starts_with(l, name) ==> remove_matching(seq![l], name) == Seq::<Seq<u8>>::empty(),
        !seq_starts_with(l, name) ==> remove_matching(seq![l], name) == seq![l],
{
    let ls = seq![l];
    assert(ls.drop_first() =~= Seq::<Seq<u8>>::empty());
    assert(remove_matching(Seq::<Seq<u8>>::empty(), name) == Seq::<Seq<u8>>::empty());
    if !seq_starts_with(l, name) {
        assert(remove_matching(ls, name) =~= seq![l]);
    }
}

/// When no line starts with `name`, removal changes nothing.
pub proof fn lemma_remove_keeps_all(ls: Seq<Seq<u8>>, name: Seq<u8>)
    requires
        forall|k: int| 0 <= k < ls.len() ==> !seq_starts_with(#[trigger] ls[k], name),
    ensures
        remove_matching(ls, name) == ls,
    decreases ls.len(),
{
    if ls.len() == 0 {
        assert(remove_matching(ls, name) =~= ls);
    } else {
        assert(forall|k: int|
            0 <= k < ls.drop_first().len() ==> ls.drop_first()[k] == ls[k + 1]);
        lemma_remove_keeps_all(ls.drop_first(), name);
        assert(remove_matching(ls, name) =~= ls);
    }
}

/// `join_lines` over a snoc: the new line lands at the end, after a
/// separator unless it is the only line.
pub proof fn lemma_join_push(ls: Seq<Seq<u8>>, l: Seq<u8>)
    ensures
        ls.len() == 0 ==> join_lines(ls.push(l)) == l,
        ls.len() > 0 ==> join_lines(ls.push(l)) == join_lines(ls) + seq![10u8] + l,
    decreases ls.len(),
{
    if ls.len() == 0 {
        assert(ls.push(l) =~= seq![l]);
    } else if ls.len() == 1 {
        let p = ls.push(l);
        assert(p.len() == 2);
        assert(p.drop_first() =~= seq![l]);
        assert(join_lines(p) == p[0] + seq![10u8] + join_lines(p.drop_first()));
        assert(join_lines(ls) == ls[0]);
        assert(p[0] == ls[0]);
    } else {
        let p = ls.push(l);
        assert(p.drop_first() =~= ls.drop_first().push(l));
        lemma_join_push(ls.drop_first(), l);
        assert(join_lines(p) == p[0] + seq![10u8] + join_lines(ls.drop_first().push(l)));
        assert(join_lines(ls.drop_first().push(l)) == join_lines(ls.drop_first()) + seq![10u8]
            + l);
        assert(ls[0] + seq![10u8] + (join_lines(ls.drop_first()) + seq![10u8] + l) =~= (ls[0]
            + seq![10u8] + join_lines(ls.drop_first())) + seq![10u8] + l);
    }
}

/// Whether two byte slices hold the same bytes.
pub fn bytes_eq(a: &[u8], b: &[u8]) -> (r: bool)
    ensures
        r == (a@ == b@),
{
    if a.len() != b.len() {
        return false;
    }
    let mut i: usize = 0;
    while i < a.len()
        invariant
            i <= a@.len(),
            a@.len() == b@.len(),
            forall|j: int| 0 <= j < i ==> a@[j] == b@[j],
        decreases a@.len() - i,
    {
        if a[i] != b[i] {
            return false;
        }
        i += 1;
    }
    assert(a@ =~= b@);
    true
}

/// Whether `p` is a byte-for-byte prefix of `s`.
pub fn bytes_starts_with(s: &[u8], p: &[u8]) -> (r: bool)
    ensures
        r == seq_starts_with(s@, p@),
{
    if p.len() > s.len() {
        return false;
    }
    let mut i: usize = 0;
    while i < p.len()
        invariant
            i <= p.len() <= s.len(),
            forall|j: int| 0 <= j < i ==> s@[j] == p@[j],
        decreases p.len() - i,
    {
        if s[i] != p[i] {
            assert(s@.subrange(0, p@.len() as int)[i as int] == s@[i as int]);
            return false;
        }
        i += 1;
    }
    assert(s@.subrange(0, p@.len() as int) =~= p@);
    true
}

/// Splits a byte slice into its lines.
pub fn split_lines_exec(v: &[u8]) -> (r: Vec<Vec<u8>>)
    ensures
        r.deep_view() == split_lines(v@),
{
    let mut lines: Vec<Vec<u8>> = Vec::new();
    let mut cur: Vec<u8> = Vec::new();
    proof {
        assert(v@.subrange(0, v@.len() as int) =~= v@);
        assert(lines.deep_view() =~= Seq::<Seq<u8>>::empty());
        assert(lines.deep_view() + split_lines(v@) =~= split_lines(v@));
    }
    let mut i: usize = 0;
    while i < v.len()
        invariant
            i <= v.len(),
            cur@.len() <= i,
            cur@ == v@.subrange(i - cur@.len(), i as int),
            forall|j: int| 0 <= j < cur@.len() ==> cur@[j] != 10,
            split_lines(v@) == lines.deep_view() + split_lines(
                v@.subrange(i - cur@.len(), v@.len() as int),
            ),
        decreases v.len() - i,
    {
        let ghost start = i - cur@.len();
        let ghost suffix = v@.subrange(start, v@.len() as int);
        let b = v[i];
        if b == 10 {
            proof {
                assert(forall|j: int|
                    0 <= j < i - start ==> suffix[j] == v@[start + j] && v@[start + j] != 10);
                assert(suffix[i - start] == 10);
                lemma_find_byte_is(suffix, 10, i - start);
                assert(suffix.subrange(0, i - start) =~= cur@);
                assert(suffix.subrange(i - start + 1, suffix.len() as int) =~= v@.subrange(
                    i + 1,
                    v@.len() as int,
                ));
                assert(split_lines(suffix) == seq![cur@] + split_lines(
                    v@.subrange(i + 1, v@.len() as int),
                ));
            }
            lines.push(cur);
            cur = Vec::new();
            proof {
                assert(split_lines(v@) =~~= lines.deep_view() + split_lines(
                    v@.subrange(i + 1, v@.len() as int),
                ));
                assert(cur@ =~= v@.subrange(i + 1 - cur@.len(), i + 1));
            }
        } else {
            cur.push(b);
            proof {
                assert(cur@ =~= v@.subrange(i + 1 - cur@.len(), i + 1));
            }
        }
        i += 1;
    }
    proof {
        let start = i - cur@.len();
        let suffix = v@.subrange(start, v@.len() as int);
        assert(forall|j: int|
            0 <= j < suffix.len() ==> suffix[j] == v@[start + j] && v@[start + j] != 10);
        lemma_find_byte_is(suffix, 10, suffix.len() as int);
        assert(split_lines(suffix) == seq![suffix]);
        assert(suffix =~= cur@);
    }
    lines.push(cur);
    proof {
        assert(lines.deep_view() =~~= split_lines(v@));
    }
    lines
}

/// Joins lines back into one byte vector with separators between them.
pub fn join_lines_exec(lines: &Vec<Vec<u8>>) -> (r: Vec<u8>)
    ensures
        r@ == join_lines(lines.deep_view()),
{
    let mut out: Vec<u8> = Vec::new();
    let mut k: usize = 0;
    while k < lines.len()
        invariant
            k <= lines.len(),
            out@ == join_lines(lines.deep_view().take(k as int)),
        decreases lines.len() - k,
    {
        proof {
            lemma_join_push(lines.deep_view().take(k as int), lines.deep_view()[k as int]);
            assert(lines.deep_view().take(k + 1) =~~= lines.deep_view().take(k as int).push(
                lines.deep_view()[k as int],
            ));
        }
        if k > 0 {
            out.push(10);
        }
        let mut piece = vstd::slice::slice_to_vec(lines[k].as_slice());
        out.append(&mut piece);
        proof {
            if k == 0 {
                assert(lines.deep_view().take(0int) =~= Seq::<Seq<u8>>::empty());
                assert(out@ =~= lines.deep_view()[0int]);
            } else {
                assert(out@ =~= join_lines(lines.deep_view().take(k as int)) + seq![10u8]
                    + lines.deep_view()[k as int]);
            }
        }
        k += 1;
    }
    proof {
        assert(lines.deep_view().take(lines@.len() as int) =~~= lines.deep_view());
    }
    out
}

} // verus!
