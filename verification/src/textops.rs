//! Text algorithms on character sequences: finding a separator, splitting
//! on it (an empty separator splits between every two characters and at
//! both ends), joining with it, and replacing every occurrence of a text.

use vstd::prelude::*;

verus! {

/// Whether `sep` occurs in `s` at position `k`.
pub open spec fn occurs_at(s: Seq<char>, sep: Seq<char>, k: int) -> bool {
    0 <= k && k + sep.len() <= s.len() && s.subrange(k, k + sep.len()) == sep
}

/// The first position at or after `i` where `sep` occurs in `s`.
pub open spec fn find_from(s: Seq<char>, sep: Seq<char>, i: int) -> Option<int>
    decreases s.len() + 1 - i,
{
    if i < 0 || i + sep.len() > s.len() {
        None
    } else if occurs_at(s, sep, i) {
        Some(i)
    } else {
        find_from(s, sep, i + 1)
    }
}

/// The first `n` characters of `s`, each as a text of its own.
pub open spec fn singles(s: Seq<char>, n: nat) -> Seq<Seq<char>> {
    Seq::new(n, |i: int| seq![s[i]])
}

/// The pieces of `s` between the occurrences of `sep`, found from the left
/// without overlapping.
pub open spec fn split_text(s: Seq<char>, sep: Seq<char>) -> Seq<Seq<char>>
    decreases s.len(),
{
    if sep.len() == 0 {
        seq![Seq::<char>::empty()] + singles(s, s.len()) + seq![Seq::<char>::empty()]
    } else {
        match find_from(s, sep, 0) {
            None => seq![s],
            Some(k) => if 0 <= k && k + sep.len() <= s.len() {
                seq![s.subrange(0, k)] + split_text(s.subrange(k + sep.len(), s.len() as int), sep)
            } else {
                seq![s]
            },
        }
    }
}

/// `parts` joined with `sep` between them.
pub open spec fn join_seqs(parts: Seq<Seq<char>>, sep: Seq<char>) -> Seq<char>
    decreases parts.len(),
{
    if parts.len() == 0 {
        Seq::empty()
    } else if parts.len() == 1 {
        parts[0]
    } else {
        join_seqs(parts.drop_last(), sep) + sep + parts.last()
    }
}

/// `s` with every occurrence of `from` replaced by `to`.
pub open spec fn replace_all(s: Seq<char>, from: Seq<char>, to: Seq<char>) -> Seq<char> {
    join_seqs(split_text(s, from), to)
}

/// Whether `s` begins with `p`.
pub open spec fn starts_with(s: Seq<char>, p: Seq<char>) -> bool {
    p.len() <= s.len() && s.subrange(0, p.len() as int) == p
}

/// Whether `s` ends with `p`.
pub open spec fn ends_with(s: Seq<char>, p: Seq<char>) -> bool {
    p.len() <= s.len() && s.subrange(s.len() - p.len(), s.len() as int) == p
}

/// Whether `s` is non-empty and made of ASCII digits only.
pub open spec fn all_ascii_digits(s: Seq<char>) -> bool {
    s.len() > 0 && forall|i: int| 0 <= i < s.len() ==> '0' <= #[trigger] s[i] <= '9'
}

// ---------------------------------------------------------------- execution

fn occurs_at_exec(s: &Vec<char>, sep: &Vec<char>, k: usize) -> (r: bool)
    requires
        k + sep@.len() <= s@.len(),
    ensures
        r == occurs_at(s@, sep@, k as int),
{
    let mut j: usize = 0;
    while j < sep.len()
        invariant
            k + sep@.len() <= s@.len(),
            s@.len() == s.len(),
            j <= sep@.len(),
            forall|t: int| 0 <= t < j ==> s@[k + t] == sep@[t],
        decreases sep@.len() - j,
    {
        if s[k + j] != sep[j] {
            assert(s@.subrange(k as int, k + sep@.len())[j as int] != sep@[j as int]);
            return false;
        }
        j = j + 1;
    }
    assert(s@.subrange(k as int, k + sep@.len()) =~= sep@);
    true
}

proof fn lemma_find_from_skip(s: Seq<char>, sep: Seq<char>, i: int, k: int)
    requires
        0 <= i <= k,
        k + sep.len() <= s.len() + 1,
        forall|t: int| i <= t < k ==> !occurs_at(s, sep, t),
    ensures
        find_from(s, sep, i) == find_from(s, sep, k),
    decreases k - i,
{
    if i < k {
        if i + sep.len() <= s.len() {
            assert(!occurs_at(s, sep, i));
            lemma_find_from_skip(s, sep, i + 1, k);
        } else {
            lemma_find_none_beyond(s, sep, k);
        }
    }
}

proof fn lemma_find_none_beyond(s: Seq<char>, sep: Seq<char>, k: int)
    requires
        k + sep.len() > s.len(),
    ensures
        find_from(s, sep, k) is None,
{
}

/// The first position at or after `i` where `sep` occurs in `s`.
pub fn find_from_exec(s: &Vec<char>, sep: &Vec<char>, i: usize) -> (r: Option<usize>)
    ensures
        match r {
            Some(k) => find_from(s@, sep@, i as int) == Some(k as int),
            None => find_from(s@, sep@, i as int) is None,
        },
{
    if sep.len() > s.len() || i > s.len() - sep.len() {
        proof { lemma_find_none_beyond(s@, sep@, i as int); }
        return None;
    }
    if sep.len() == 0 {
        assert(s@.subrange(i as int, i as int) =~= sep@);
        return Some(i);
    }
    let mut k = i;
    loop
        invariant
            i <= k,
            k + sep@.len() <= s@.len() + 1,
            sep@.len() <= s@.len(),
            s@.len() == s.len(),
            sep@.len() == sep.len(),
            sep@.len() > 0,
            forall|t: int| i <= t < k ==> !occurs_at(s@, sep@, t),
        decreases s@.len() + 1 - k,
    {
        if k > s.len() - sep.len() {
            proof {
                lemma_find_from_skip(s@, sep@, i as int, k as int);
                lemma_find_none_beyond(s@, sep@, k as int);
            }
            return None;
        }
        if occurs_at_exec(s, sep, k) {
            proof { lemma_find_from_skip(s@, sep@, i as int, k as int); }
            return Some(k);
        }
        k = k + 1;
    }
}

fn sub_chars(s: &Vec<char>, from: usize, to: usize) -> (r: Vec<char>)
    requires
        from <= to <= s@.len(),
    ensures
        r@ == s@.subrange(from as int, to as int),
{
    let mut out: Vec<char> = Vec::new();
    let mut i = from;
    while i < to
        invariant
            from <= i <= to <= s@.len(),
            out@ =~= s@.subrange(from as int, i as int),
        decreases to - i,
    {
        out.push(s[i]);
        i = i + 1;
    }
    out
}

pub open spec fn char_seqs(v: Seq<Vec<char>>) -> Seq<Seq<char>> {
    Seq::new(v.len(), |i: int| v[i]@)
}

proof fn lemma_find_from_bounds(s: Seq<char>, sep: Seq<char>, i: int)
    requires
        find_from(s, sep, i) is Some,
    ensures
        i <= find_from(s, sep, i)->0,
        occurs_at(s, sep, find_from(s, sep, i)->0),
    decreases s.len() + 1 - i,
{
    if !(i < 0 || i + sep.len() > s.len()) && !occurs_at(s, sep, i) {
        lemma_find_from_bounds(s, sep, i + 1);
    }
}

/// Splits `s` on `sep`.
pub fn split_text_exec(s: &Vec<char>, sep: &Vec<char>) -> (r: Vec<Vec<char>>)
    ensures
        char_seqs(r@) == split_text(s@, sep@),
    decreases s@.len(),
{
    if sep.len() == 0 {
        let mut out: Vec<Vec<char>> = Vec::new();
        out.push(Vec::new());
        assert(char_seqs(out@) =~= seq![Seq::<char>::empty()] + singles(s@, 0));
        let mut i: usize = 0;
        while i < s.len()
            invariant
                i <= s@.len(),
                char_seqs(out@) =~= seq![Seq::<char>::empty()] + singles(s@, i as nat),
            decreases s@.len() - i,
        {
            let mut one: Vec<char> = Vec::new();
            one.push(s[i]);
            let ghost before = out@;
            out.push(one);
            proof {
                assert(out@ == before.push(one));
                assert(char_seqs(out@) =~= char_seqs(before).push(seq![s@[i as int]]));
                assert(singles(s@, (i + 1) as nat) =~= singles(s@, i as nat).push(seq![s@[i as int]]));
            }
            i = i + 1;
        }
        let ghost before = out@;
        out.push(Vec::new());
        assert(char_seqs(out@) =~= char_seqs(before).push(Seq::<char>::empty()));
        return out;
    }
    match find_from_exec(s, sep, 0) {
        None => {
            let mut out: Vec<Vec<char>> = Vec::new();
            out.push(crate::value::copy_chars(s));
            assert(char_seqs(out@) =~= seq![s@]);
            out
        }
        Some(k) => {
            proof { lemma_find_from_bounds(s@, sep@, 0); }
            let n = s.len();
            assert(k + sep@.len() <= s@.len());
            let head = sub_chars(s, 0, k);
            let rest = sub_chars(s, k + sep.len(), n);
            assert(rest@.len() < s@.len());
            let tail = split_text_exec(&rest, sep);
            let mut out: Vec<Vec<char>> = Vec::new();
            out.push(head);
            let mut j: usize = 0;
            while j < tail.len()
                invariant
                    j <= tail@.len(),
                    k <= s@.len(),
                    char_seqs(out@) =~= seq![s@.subrange(0, k as int)] + char_seqs(tail@).subrange(0, j as int),
                decreases tail@.len() - j,
            {
                let c = crate::value::copy_chars(&tail[j]);
                let ghost before = out@;
                out.push(c);
                proof {
                    assert(char_seqs(out@) =~= char_seqs(before).push(tail@[j as int]@));
                    assert(char_seqs(tail@).subrange(0, j + 1) =~= char_seqs(tail@).subrange(0, j as int).push(tail@[j as int]@));
                }
                j = j + 1;
            }
            assert(char_seqs(tail@).subrange(0, tail@.len() as int) =~= char_seqs(tail@));
            out
        }
    }
}

/// Joins `parts` with `sep`.
pub fn join_seqs_exec(parts: &Vec<Vec<char>>, sep: &Vec<char>) -> (r: Vec<char>)
    ensures
        r@ == join_seqs(char_seqs(parts@), sep@),
{
    let ghost ps = char_seqs(parts@);
    let mut out: Vec<char> = Vec::new();
    let mut i: usize = 0;
    while i < parts.len()
        invariant
            ps == char_seqs(parts@),
            i <= parts@.len(),
            out@ == join_seqs(ps.subrange(0, i as int), sep@),
        decreases parts@.len() - i,
    {
        if i > 0 {
            crate::text::extend_chars(&mut out, sep);
        }
        crate::text::extend_chars(&mut out, &parts[i]);
        proof {
            let pre = ps.subrange(0, i as int);
            let next = ps.subrange(0, i + 1);
            assert(next.drop_last() =~= pre);
            assert(next.last() == parts@[i as int]@);
            if i == 0 {
                assert(next.len() == 1);
            }
        }
        i = i + 1;
    }
    assert(ps.subrange(0, parts@.len() as int) =~= ps);
    out
}

/// `s` with every occurrence of `from` replaced by `to`.
pub fn replace_all_exec(s: &Vec<char>, from: &Vec<char>, to: &Vec<char>) -> (r: Vec<char>)
    ensures
        r@ == replace_all(s@, from@, to@),
{
    let parts = split_text_exec(s, from);
    join_seqs_exec(&parts, to)
}

pub fn starts_with_exec(s: &Vec<char>, p: &Vec<char>) -> (r: bool)
    ensures
        r == starts_with(s@, p@),
{
    if p.len() > s.len() {
        return false;
    }
    let r = occurs_at_exec(s, p, 0);
    assert(r == (s@.subrange(0, p@.len() as int) == p@));
    r
}

pub fn ends_with_exec(s: &Vec<char>, p: &Vec<char>) -> (r: bool)
    ensures
        r == ends_with(s@, p@),
{
    if p.len() > s.len() {
        return false;
    }
    occurs_at_exec(s, p, s.len() - p.len())
}

pub fn all_ascii_digits_exec(s: &Vec<char>) -> (r: bool)
    ensures
        r == all_ascii_digits(s@),
{
    if s.len() == 0 {
        return false;
    }
    let mut i: usize = 0;
    while i < s.len()
        invariant
            i <= s@.len(),
            forall|t: int| 0 <= t < i ==> '0' <= #[trigger] s@[t] <= '9',
        decreases s@.len() - i,
    {
        if !('0' <= s[i] && s[i] <= '9') {
            return false;
        }
        i = i + 1;
    }
    true
}

} // verus!

verus! {

/// Joining a first part in front of the others.
pub proof fn lemma_join_prepend(a: Seq<char>, ps: Seq<Seq<char>>, sep: Seq<char>)
    requires
        ps.len() > 0,
    ensures
        join_seqs(seq![a] + ps, sep) == a + sep + join_seqs(ps, sep),
    decreases ps.len(),
{
    let all = seq![a] + ps;
    assert(all.len() == ps.len() + 1);
    assert(all.drop_last() =~= seq![a] + ps.drop_last());
    assert(all.last() == ps.last());
    assert(join_seqs(all, sep) == join_seqs(all.drop_last(), sep) + sep + all.last());
    if ps.len() == 1 {
        assert(seq![a] + ps.drop_last() =~= seq![a]);
        assert(join_seqs(seq![a], sep) == a);
        assert(join_seqs(ps, sep) == ps[0]);
        assert(ps.last() == ps[0]);
    } else {
        lemma_join_prepend(a, ps.drop_last(), sep);
        assert(join_seqs(ps, sep) == join_seqs(ps.drop_last(), sep) + sep + ps.last());
        assert(a + sep + join_seqs(ps.drop_last(), sep) + sep + ps.last() =~= a + sep + (join_seqs(ps.drop_last(), sep) + sep + ps.last()));
    }
}

/// Joining single characters with nothing between them.
proof fn lemma_join_chars(s: Seq<char>, n: nat)
    requires
        n <= s.len(),
    ensures
        join_seqs(seq![Seq::<char>::empty()] + singles(s, n), Seq::empty()) == s.subrange(0, n as int),
    decreases n,
{
    let ps = seq![Seq::<char>::empty()] + singles(s, n);
    if n == 0 {
        assert(ps =~= seq![Seq::<char>::empty()]);
        assert(s.subrange(0, 0) =~= Seq::<char>::empty());
    } else {
        lemma_join_chars(s, (n - 1) as nat);
        let pre = seq![Seq::<char>::empty()] + singles(s, (n - 1) as nat);
        assert(ps.drop_last() =~= pre);
        assert(ps.last() == seq![s[n - 1]]);
        assert(s.subrange(0, n as int) =~= s.subrange(0, n - 1) + Seq::<char>::empty() + seq![s[n - 1]]);
    }
}

/// Splitting a text on a separator and joining the pieces with the same
/// separator gives the text back.
pub proof fn lemma_split_join(s: Seq<char>, sep: Seq<char>)
    ensures
        join_seqs(split_text(s, sep), sep) == s,
    decreases s.len(),
{
    if sep.len() == 0 {
        let inner = seq![Seq::<char>::empty()] + singles(s, s.len());
        let parts = inner + seq![Seq::<char>::empty()];
        assert(sep =~= Seq::<char>::empty());
        assert(split_text(s, sep) == parts);
        lemma_join_chars(s, s.len());
        assert(parts.drop_last() =~= inner);
        assert(parts.len() >= 2);
        assert(join_seqs(parts, sep) == join_seqs(inner, sep) + sep + parts.last());
        assert(s.subrange(0, s.len() as int) =~= s);
        assert(parts.last() == Seq::<char>::empty());
        assert(s + sep + Seq::<char>::empty() =~= s);
        assert(join_seqs(parts, sep) == s);
    } else {
        match find_from(s, sep, 0) {
            None => {
                assert(split_text(s, sep) == seq![s]);
                assert(join_seqs(seq![s], sep) == s);
            }
            Some(k) => {
                if !(0 <= k && k + sep.len() <= s.len()) {
                    assert(split_text(s, sep) == seq![s]);
                    assert(join_seqs(seq![s], sep) == s);
                } else {
                    let rest = s.subrange(k + sep.len(), s.len() as int);
                    lemma_split_join(rest, sep);
                    let tail = split_text(rest, sep);
                    assert(tail.len() > 0) by {
                        if find_from(rest, sep, 0) is Some {
                        }
                    }
                    lemma_join_prepend(s.subrange(0, k), tail, sep);
                    assert(split_text(s, sep) == seq![s.subrange(0, k)] + tail);
                    assert(s.subrange(0, k) + sep + rest =~= s) by {
                        assert(s.subrange(k, k + sep.len()) == sep) by {
                            lemma_find_occurs(s, sep, 0);
                        }
                    }
                    assert(join_seqs(seq![s.subrange(0, k)] + tail, sep) == s);
                }
            }
        }
    }
}

proof fn lemma_find_occurs(s: Seq<char>, sep: Seq<char>, i: int)
    requires
        find_from(s, sep, i) is Some,
    ensures
        occurs_at(s, sep, find_from(s, sep, i)->0),
    decreases s.len() + 1 - i,
{
    if !(i < 0 || i + sep.len() > s.len()) && !occurs_at(s, sep, i) {
        lemma_find_occurs(s, sep, i + 1);
    }
}

} // verus!
