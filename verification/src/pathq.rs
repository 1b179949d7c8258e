//! Request path and query string text.
//!
//! A request path is absolute text such as `/user/create/7`; its segments
//! are the parts between the slashes.  A query string is pairs such as
//! `sort=true&max=10`; pairs are split at `&`, each pair at its first `=`.

use vstd::prelude::*;

verus! {

/// Splits `s` at every occurrence of `sep`; always at least one part.
pub open spec fn split_bytes(s: Seq<u8>, sep: u8) -> Seq<Seq<u8>>
    decreases s.len(),
{
    if s.len() == 0 {
        seq![Seq::<u8>::empty()]
    } else if s.last() == sep {
        split_bytes(s.drop_last(), sep).push(Seq::empty())
    } else {
        let r = split_bytes(s.drop_last(), sep);
        r.update(r.len() - 1, r.last().push(s.last()))
    }
}

/// A split always has at least one part.
pub proof fn lemma_split_nonempty(s: Seq<u8>, sep: u8)
    ensures
        split_bytes(s, sep).len() >= 1,
    decreases s.len(),
{
    if s.len() > 0 {
        lemma_split_nonempty(s.drop_last(), sep);
    }
}

/// Models of a sequence of byte buffers.
pub open spec fn bufs_models(bs: Seq<Vec<u8>>) -> Seq<Seq<u8>> {
    Seq::new(bs.len(), |i: int| bs[i]@)
}

/// Splits a buffer at every occurrence of `sep`.
pub fn split_exec(s: &Vec<u8>, sep: u8) -> (r: Vec<Vec<u8>>)
    ensures
        bufs_models(r@) == split_bytes(s@, sep),
{
    let mut parts: Vec<Vec<u8>> = Vec::new();
    let mut cur: Vec<u8> = Vec::new();
    let mut i: usize = 0;
    proof {
        assert(s@.take(0) =~= Seq::<u8>::empty());
        assert(bufs_models(parts@).push(cur@) =~~= split_bytes(s@.take(0), sep));
    }
    while i < s.len()
        invariant
            i <= s@.len(),
            bufs_models(parts@).push(cur@) =~~= split_bytes(s@.take(i as int), sep),
        decreases s@.len() - i,
    {
        let ghost pre = s@.take(i as int);
        proof {
            assert(s@.take(i as int + 1).drop_last() =~= pre);
            assert(s@.take(i as int + 1).last() == s@[i as int]);
            lemma_split_nonempty(pre, sep);
        }
        if s[i] == sep {
            parts.push(cur);
            cur = Vec::new();
            proof {
                assert(bufs_models(parts@).push(cur@) =~~= split_bytes(
                    s@.take(i as int + 1),
                    sep,
                ));
            }
        } else {
            cur.push(s[i]);
            proof {
                let old_split = split_bytes(pre, sep);
                assert(bufs_models(parts@).push(cur@) =~~= old_split.update(
                    old_split.len() - 1,
                    old_split.last().push(s@[i as int]),
                ));
                assert(bufs_models(parts@).push(cur@) =~~= split_bytes(
                    s@.take(i as int + 1),
                    sep,
                ));
            }
        }
        i = i + 1;
    }
    parts.push(cur);
    proof {
        assert(s@.take(s@.len() as int) =~= s@);
        assert(bufs_models(parts@) =~~= split_bytes(s@, sep));
    }
    parts
}

/// The segments of an absolute path: the text after the leading slash,
/// split at every slash.  A path without a leading slash has none.
pub open spec fn path_segments(p: Seq<u8>) -> Option<Seq<Seq<u8>>> {
    if p.len() >= 1 && p[0] == 47 {
        Some(split_bytes(p.skip(1), 47))
    } else {
        None
    }
}

/// Splits an absolute path into its segments.
pub fn split_path(p: &Vec<u8>) -> (r: Option<Vec<Vec<u8>>>)
    ensures
        r is None <==> path_segments(p@) is None,
        r matches Some(segs) ==> path_segments(p@) == Some(bufs_models(segs@)),
{
    if p.len() >= 1 && p[0] == 47 {
        let tail = vstd::slice::slice_to_vec(
            vstd::slice::slice_subrange(p.as_slice(), 1, p.len()),
        );
        proof {
            assert(tail@ =~= p@.skip(1));
        }
        Some(split_exec(&tail, 47))
    } else {
        None
    }
}

/// Cuts one `name=value` pair at its first `=`; without one, the whole
/// text is the name and the value is empty.
pub open spec fn cut_eq(s: Seq<u8>) -> (Seq<u8>, Seq<u8>)
    decreases s.len(),
{
    if s.len() == 0 {
        (Seq::empty(), Seq::empty())
    } else if s[0] == 61 {
        (Seq::empty(), s.drop_first())
    } else {
        let (k, v) = cut_eq(s.drop_first());
        (seq![s[0]] + k, v)
    }
}

/// What `cut_eq` yields when the first `=` stands at `j`, or nowhere.
pub proof fn lemma_cut_eq_at(s: Seq<u8>, j: int)
    requires
        0 <= j <= s.len(),
        forall|p: int| 0 <= p < j ==> s[p] != 61,
        j < s.len() ==> s[j] == 61,
    ensures
        j < s.len() ==> cut_eq(s) == (s.take(j), s.skip(j + 1)),
        j == s.len() ==> cut_eq(s) == (s, Seq::<u8>::empty()),
    decreases s.len(),
{
    if s.len() == 0 {
    } else if j == 0 {
        if j < s.len() {
            assert(s.take(0) =~= Seq::<u8>::empty());
            assert(s.skip(1) =~= s.drop_first());
        }
    } else {
        let t = s.drop_first();
        assert(forall|p: int| 0 <= p < j - 1 ==> t[p] != 61);
        lemma_cut_eq_at(t, j - 1);
        if j < s.len() {
            assert(seq![s[0]] + t.take(j - 1) =~= s.take(j));
            assert(t.skip(j) =~= s.skip(j + 1));
        } else {
            assert(seq![s[0]] + t =~= s);
        }
    }
}

/// Cuts a pair at its first `=`.
pub fn cut_eq_exec(s: &Vec<u8>) -> (r: (Vec<u8>, Vec<u8>))
    ensures
        (r.0@, r.1@) == cut_eq(s@),
{
    let mut j: usize = 0;
    while j < s.len()
        invariant
            j <= s@.len(),
            forall|p: int| 0 <= p < j ==> s@[p] != 61,
        decreases s@.len() - j,
    {
        if s[j] == 61 {
            let k = vstd::slice::slice_to_vec(vstd::slice::slice_subrange(s.as_slice(), 0, j));
            let v = vstd::slice::slice_to_vec(
                vstd::slice::slice_subrange(s.as_slice(), j + 1, s.len()),
            );
            proof {
                lemma_cut_eq_at(s@, j as int);
                assert(k@ =~= s@.take(j as int));
                assert(v@ =~= s@.skip(j as int + 1));
            }
            return (k, v);
        }
        j = j + 1;
    }
    proof {
        lemma_cut_eq_at(s@, s@.len() as int);
    }
    (vstd::slice::slice_to_vec(s.as_slice()), Vec::new())
}

/// The pairs of a query string.
pub open spec fn qpairs(q: Seq<u8>) -> Seq<(Seq<u8>, Seq<u8>)> {
    Seq::new(split_bytes(q, 38).len(), |i: int| cut_eq(split_bytes(q, 38)[i]))
}

/// Models of parsed query pairs.
pub open spec fn pairs_models(ps: Seq<(Vec<u8>, Vec<u8>)>) -> Seq<(Seq<u8>, Seq<u8>)> {
    Seq::new(ps.len(), |i: int| (ps[i].0@, ps[i].1@))
}

/// Parses a query string into its pairs.
pub fn parse_query(q: &Vec<u8>) -> (r: Vec<(Vec<u8>, Vec<u8>)>)
    ensures
        pairs_models(r@) == qpairs(q@),
{
    let parts = split_exec(q, 38);
    let mut out: Vec<(Vec<u8>, Vec<u8>)> = Vec::new();
    let mut i: usize = 0;
    while i < parts.len()
        invariant
            i <= parts@.len(),
            bufs_models(parts@) == split_bytes(q@, 38),
            pairs_models(out@) =~~= qpairs(q@).take(i as int),
        decreases parts@.len() - i,
    {
        let pair = cut_eq_exec(&parts[i]);
        proof {
            assert(bufs_models(parts@)[i as int] == parts@[i as int]@);
            assert((pair.0@, pair.1@) == qpairs(q@)[i as int]);
        }
        let ghost old_out = out@;
        out.push(pair);
        proof {
            assert(pairs_models(out@) =~= pairs_models(old_out).push((pair.0@, pair.1@)));
            assert(qpairs(q@).take(i as int + 1) =~= qpairs(q@).take(i as int).push(
                qpairs(q@)[i as int],
            ));
            assert(pairs_models(out@) =~~= qpairs(q@).take(i as int + 1));
        }
        i = i + 1;
    }
    proof {
        assert(qpairs(q@).take(qpairs(q@).len() as int) =~= qpairs(q@));
        assert(pairs_models(out@) =~~= qpairs(q@));
    }
    out
}

/// The value of the first pair named `name`, if any.
pub open spec fn lookup_q(pairs: Seq<(Seq<u8>, Seq<u8>)>, name: Seq<u8>) -> Option<Seq<u8>>
    decreases pairs.len(),
{
    if pairs.len() == 0 {
        None
    } else if pairs[0].0 == name {
        Some(pairs[0].1)
    } else {
        lookup_q(pairs.drop_first(), name)
    }
}

/// Looks a parameter up among parsed query pairs.
pub fn lookup_query<'a>(pairs: &'a Vec<(Vec<u8>, Vec<u8>)>, name: &Vec<u8>) -> (r: Option<
    &'a Vec<u8>,
>)
    ensures
        r is None <==> lookup_q(pairs_models(pairs@), name@) is None,
        r matches Some(v) ==> lookup_q(pairs_models(pairs@), name@) == Some(v@),
{
    let ghost pm = pairs_models(pairs@);
    let mut j: usize = 0;
    proof {
        assert(pm.skip(0) =~= pm);
    }
    while j < pairs.len()
        invariant
            j <= pairs@.len(),
            pm == pairs_models(pairs@),
            lookup_q(pm, name@) == lookup_q(pm.skip(j as int), name@),
        decreases pairs@.len() - j,
    {
        proof {
            assert(pm.skip(j as int)[0] == pm[j as int]);
            assert(pm.skip(j as int).drop_first() =~= pm.skip(j as int + 1));
        }
        if crate::bytes::bytes_eq(&pairs[j].0, name) {
            return Some(&pairs[j].1);
        }
        j = j + 1;
    }
    proof {
        assert(pm.skip(j as int) =~= Seq::<(Seq<u8>, Seq<u8>)>::empty());
    }
    None
}

} // verus!
