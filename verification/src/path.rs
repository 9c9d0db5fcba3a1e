//! Normalisation of slash-separated paths: `.` and `..` segments resolved, repeated
//! slashes collapsed.
use vstd::prelude::*;
use crate::text::{
    find_sep, is_sep, lemma_pieces_cons, lemma_pieces_whole, lemma_sep_index, no_sep, pieces,
    push_char, sep_index,
};

verus! {

/// The segments kept so far, and how many leading `..` segments are among them.
pub type CleanState = (Seq<Seq<char>>, nat);

/// How one segment changes the kept segments. Empty and `.` segments are dropped; `..`
/// drops the last kept segment, or is kept itself in a relative path that has nothing left
/// to drop, or is dropped at the root of an absolute path.
pub open spec fn clean_step(rooted: bool, st: CleanState, seg: Seq<char>) -> CleanState {
    if seg.len() == 0 || seg == seq!['.'] {
        st
    } else if seg == seq!['.', '.'] {
        if !rooted && st.0.len() <= st.1 {
            (st.0.push(seg), st.1 + 1)
        } else if st.0.len() > st.1 {
            (st.0.drop_last(), st.1)
        } else {
            st
        }
    } else {
        (st.0.push(seg), st.1)
    }
}

/// The kept segments after all of `segs`, left to right.
pub open spec fn clean_run(rooted: bool, segs: Seq<Seq<char>>, st: CleanState) -> CleanState
    decreases segs.len(),
{
    if segs.len() == 0 {
        st
    } else {
        clean_run(rooted, segs.drop_first(), clean_step(rooted, st, segs[0]))
    }
}

/// The segments joined with `/`.
pub open spec fn join_slash(parts: Seq<Seq<char>>) -> Seq<char>
    decreases parts.len(),
{
    if parts.len() == 0 {
        Seq::empty()
    } else if parts.len() == 1 {
        parts[0]
    } else {
        join_slash(parts.drop_last()) + seq!['/'] + parts.last()
    }
}

/// `name` normalised: the kept segments joined with `/`, after a `/` where `name` starts
/// with one; `/` or `.` where nothing is kept.
pub open spec fn clean_name(name: Seq<char>) -> Seq<char> {
    let rooted = name.len() > 0 && name[0] == '/';
    let parts = clean_run(rooted, pieces(name, '/', '/'), (Seq::empty(), 0)).0;
    if parts.len() == 0 {
        if rooted {
            seq!['/']
        } else {
            seq!['.']
        }
    } else if rooted {
        seq!['/'] + join_slash(parts)
    } else {
        join_slash(parts)
    }
}

/// The segments that index ranges of `v` stand for.
pub open spec fn ranges_view(v: Seq<char>, parts: Seq<(usize, usize)>) -> Seq<Seq<char>> {
    parts.map_values(|r: (usize, usize)| v.subrange(r.0 as int, r.1 as int))
}

/// The pieces of a text that has a separator at `i`: the text before it, then the pieces
/// of the rest.
pub proof fn lemma_pieces_step(s: Seq<char>, a: char, b: char)
    ensures
        ({
            let i = sep_index(s, a, b);
            if i < s.len() {
                pieces(s, a, b) == seq![s.take(i)] + pieces(s.skip(i + 1), a, b)
            } else {
                pieces(s, a, b) == seq![s]
            }
        }),
{
    lemma_sep_index(s, a, b);
}

/// Normalises a path as `fz_cleanname` does: `.` segments and empty segments are removed,
/// `..` removes the segment before it (or stays, in a relative path with nothing before it),
/// and an empty result is `.` (or `/` for an absolute path).
pub fn clean_chars(name: &Vec<char>) -> (r: String)
    ensures
        r@ == clean_name(name@),
{
    let n = name.len();
    let rooted = n > 0 && name[0] == '/';
    let ghost all = pieces(name@, '/', '/');
    let ghost target = clean_run(rooted, all, (Seq::empty(), 0));
    let mut parts: Vec<(usize, usize)> = Vec::new();
    let mut depth: usize = 0;
    let mut pos: usize = 0;
    assert(name@.subrange(0, n as int) =~= name@);
    assert(ranges_view(name@, parts@) =~= Seq::<Seq<char>>::empty());
    loop
        invariant_except_break
            pos <= n == name@.len(),
            depth <= parts@.len(),
            parts@.len() <= pos,
            forall|k: int| 0 <= k < parts@.len() ==> {
                &&& (#[trigger] parts@[k]).0 <= parts@[k].1 <= n
            },
            clean_run(rooted, pieces(name@.subrange(pos as int, n as int), '/', '/'),
                (ranges_view(name@, parts@), depth as nat)) == target,
        ensures
            depth <= parts@.len(),
            forall|k: int| 0 <= k < parts@.len() ==> {
                &&& (#[trigger] parts@[k]).0 <= parts@[k].1 <= name@.len()
            },
            (ranges_view(name@, parts@), depth as nat) == target,
        decreases n - pos,
    {
        let ghost rest = name@.subrange(pos as int, n as int);
        let end = find_sep(name, pos, n, '/', '/');
        let ghost seg = name@.subrange(pos as int, end as int);
        let ghost before = (ranges_view(name@, parts@), depth as nat);
        proof {
            lemma_pieces_step(rest, '/', '/');
            assert(rest.take(end - pos) =~= seg);
            if end < n {
                assert(rest.skip(end - pos + 1) =~= name@.subrange(end + 1, n as int));
            }
        }
        let len = end - pos;
        if len == 0 || (len == 1 && name[pos] == '.') {
            assert(seg.len() == 0 || seg =~= seq!['.']);
        } else if len == 2 && name[pos] == '.' && name[pos + 1] == '.' {
            assert(seg =~= seq!['.', '.']);
            if !rooted && parts.len() <= depth {
                parts.push((pos, end));
                depth = depth + 1;
                assert(ranges_view(name@, parts@) =~= before.0.push(seg));
            } else if parts.len() > depth {
                parts.pop();
                assert(ranges_view(name@, parts@) =~= before.0.drop_last());
            }
        } else {
            assert(seg != seq!['.', '.'] && seg != seq!['.']) by {
                if len == 2 {
                    assert(seg[0] == name@[pos as int] && seg[1] == name@[pos + 1]);
                }
                if len == 1 {
                    assert(seg[0] == name@[pos as int]);
                }
            }
            parts.push((pos, end));
            assert(ranges_view(name@, parts@) =~= before.0.push(seg));
        }
        assert((ranges_view(name@, parts@), depth as nat) == clean_step(rooted, before, seg));
        if end == n {
            assert(pieces(rest, '/', '/') =~= seq![seg]);
            assert(seq![seg].drop_first() =~= Seq::<Seq<char>>::empty());
            assert(seq![seg][0] == seg);
            assert(clean_run(rooted, Seq::<Seq<char>>::empty(), clean_step(rooted, before, seg))
                == clean_step(rooted, before, seg));
            assert(clean_run(rooted, seq![seg], before) == clean_step(rooted, before, seg));
            break;
        }
        assert(pieces(rest, '/', '/')[0] == seg);
        assert(pieces(rest, '/', '/').drop_first() =~= pieces(name@.subrange(end + 1, n as int), '/', '/'));
        pos = end + 1;
    }
    let mut out = String::new();
    if parts.len() == 0 {
        if rooted {
            push_char(&mut out, '/');
        } else {
            push_char(&mut out, '.');
        }
        assert(out@ =~= clean_name(name@));
        return out;
    }
    if rooted {
        push_char(&mut out, '/');
    }
    let ghost head = out@;
    let mut k: usize = 0;
    while k < parts.len()
        invariant
            0 < parts@.len(),
            k <= parts@.len(),
            forall|q: int| 0 <= q < parts@.len() ==> {
                &&& (#[trigger] parts@[q]).0 <= parts@[q].1 <= name@.len()
            },
            out@ == head + join_slash(ranges_view(name@, parts@).take(k as int)),
        decreases parts@.len() - k,
    {
        let (a, b) = parts[k];
        let ghost prev = ranges_view(name@, parts@).take(k as int);
        if k > 0 {
            push_char(&mut out, '/');
        }
        let mut i = a;
        let ghost mid = out@;
        while i < b
            invariant
                a <= i <= b <= name@.len(),
                out@ == mid + name@.subrange(a as int, i as int),
            decreases b - i,
        {
            push_char(&mut out, name[i]);
            i = i + 1;
            assert(out@ =~= mid + name@.subrange(a as int, i as int));
        }
        proof {
            let next = ranges_view(name@, parts@).take(k + 1);
            assert(next.drop_last() =~= prev);
            assert(next.last() == name@.subrange(a as int, b as int));
            if k == 0 {
                assert(prev =~= Seq::<Seq<char>>::empty());
                assert(out@ =~= head + join_slash(next));
            } else {
                assert(out@ =~= head + join_slash(next));
            }
        }
        k = k + 1;
    }
    assert(ranges_view(name@, parts@).take(k as int) =~= ranges_view(name@, parts@));
    assert(out@ =~= clean_name(name@));
    out
}

/// Normalises a path as `fz_cleanname` does (see [`clean_name`]).
pub fn cleanname(name: &str) -> (r: String)
    ensures
        r@ == clean_name(name@),
{
    let v = crate::text::chars_of(name);
    clean_chars(&v)
}

/// An empty segment first changes nothing.
proof fn lemma_clean_run_empty_first(rooted: bool, segs: Seq<Seq<char>>, st: CleanState)
    ensures
        clean_run(rooted, seq![Seq::<char>::empty()] + segs, st) == clean_run(rooted, segs, st),
{
    let all = seq![Seq::<char>::empty()] + segs;
    assert(all[0] == Seq::<char>::empty());
    assert(all.drop_first() =~= segs);
}

/// Extra slashes before an absolute path do not change its normal form.
pub proof fn lemma_cleanname_slashes(p: Seq<char>)
    requires
        p.len() > 0,
        p[0] == '/',
    ensures
        clean_name(seq!['/', '/'] + p) == clean_name(p),
{
    let e = Seq::<char>::empty();
    let s = seq!['/', '/'] + p;
    let s1 = seq!['/'] + p;
    assert(no_sep(e, '/', '/'));
    assert(s =~= e + seq!['/'] + s1);
    lemma_pieces_cons(e, '/', s1, '/', '/');
    assert(s1 =~= e + seq!['/'] + p);
    lemma_pieces_cons(e, '/', p, '/', '/');
    let init: CleanState = (Seq::empty(), 0);
    lemma_clean_run_empty_first(true, pieces(s1, '/', '/'), init);
    lemma_clean_run_empty_first(true, pieces(p, '/', '/'), init);
    assert(s[0] == '/');
}

/// A segment that normalisation keeps as it is: not empty, not `.`, without `/`.
pub open spec fn kept_segment(seg: Seq<char>) -> bool {
    seg.len() > 0 && seg != seq!['.'] && no_sep(seg, '/', '/')
}

/// The kept segments of a normal path: the first `st.1` of them are `..` (none in an
/// absolute path), no other is, and each is a kept segment.
pub open spec fn normal_state(rooted: bool, st: CleanState) -> bool {
    &&& st.1 <= st.0.len()
    &&& rooted ==> st.1 == 0
    &&& forall|k: int| 0 <= k < st.0.len() ==> kept_segment(#[trigger] st.0[k])
    &&& forall|k: int| 0 <= k < st.0.len() ==> ((#[trigger] st.0[k]) == seq!['.', '.'] <==> k < st.1)
}

/// No piece holds a separator.
proof fn lemma_pieces_no_sep(s: Seq<char>, a: char, b: char)
    ensures
        forall|k: int| 0 <= k < pieces(s, a, b).len() ==> no_sep(#[trigger] pieces(s, a, b)[k], a, b),
    decreases s.len(),
{
    let i = sep_index(s, a, b);
    lemma_sep_index(s, a, b);
    lemma_pieces_step(s, a, b);
    if i < s.len() {
        lemma_pieces_no_sep(s.skip(i + 1), a, b);
        let ps = pieces(s, a, b);
        assert forall|k: int| 0 <= k < ps.len() implies no_sep(#[trigger] ps[k], a, b) by {
            if k == 0 {
                assert forall|j: int| 0 <= j < s.take(i).len() implies !is_sep(#[trigger] s.take(i)[j], a, b) by {
                    assert(s.take(i)[j] == s[j]);
                }
            } else {
                assert(ps[k] == pieces(s.skip(i + 1), a, b)[k - 1]);
            }
        }
    } else {
        assert forall|j: int| 0 <= j < s.len() implies !is_sep(#[trigger] s[j], a, b) by {}
    }
}

/// One segment keeps the kept segments normal.
proof fn lemma_step_normal(rooted: bool, st: CleanState, seg: Seq<char>)
    requires
        normal_state(rooted, st),
        no_sep(seg, '/', '/'),
    ensures
        normal_state(rooted, clean_step(rooted, st, seg)),
{
    let next = clean_step(rooted, st, seg);
    let dots = seq!['.', '.'];
    if seg.len() == 0 || seg == seq!['.'] {
    } else if seg == dots {
        assert(dots.len() == 2 && dots != seq!['.']);
        if !rooted && st.0.len() <= st.1 {
            assert forall|k: int| 0 <= k < next.0.len() implies ((#[trigger] next.0[k]) == dots <==> k < next.1)
                && kept_segment(next.0[k]) by {
                if k < st.0.len() {
                    assert(next.0[k] == st.0[k]);
                }
            }
        } else if st.0.len() > st.1 {
            assert forall|k: int| 0 <= k < next.0.len() implies ((#[trigger] next.0[k]) == dots <==> k < next.1)
                && kept_segment(next.0[k]) by {
                assert(next.0[k] == st.0[k]);
            }
        }
    } else {
        assert forall|k: int| 0 <= k < next.0.len() implies ((#[trigger] next.0[k]) == dots <==> k < next.1)
            && kept_segment(next.0[k]) by {
            if k < st.0.len() {
                assert(next.0[k] == st.0[k]);
            }
        }
    }
}

/// Segments without `/` keep the kept segments normal.
proof fn lemma_run_normal(rooted: bool, segs: Seq<Seq<char>>, st: CleanState)
    requires
        normal_state(rooted, st),
        forall|k: int| 0 <= k < segs.len() ==> no_sep(#[trigger] segs[k], '/', '/'),
    ensures
        normal_state(rooted, clean_run(rooted, segs, st)),
    decreases segs.len(),
{
    if segs.len() > 0 {
        lemma_step_normal(rooted, st, segs[0]);
        assert forall|k: int| 0 <= k < segs.drop_first().len() implies no_sep(
            #[trigger] segs.drop_first()[k],
            '/',
            '/',
        ) by {
            assert(segs.drop_first()[k] == segs[k + 1]);
        }
        lemma_run_normal(rooted, segs.drop_first(), clean_step(rooted, st, segs[0]));
    }
}

/// Joining a first segment before others puts a `/` between them.
proof fn lemma_join_cons(x: Seq<char>, rest: Seq<Seq<char>>)
    requires
        rest.len() > 0,
    ensures
        join_slash(seq![x] + rest) == x + seq!['/'] + join_slash(rest),
    decreases rest.len(),
{
    let all = seq![x] + rest;
    assert(all.drop_last().len() == rest.len());
    if rest.len() == 1 {
        assert(all.drop_last() =~= seq![x]);
        assert(join_slash(seq![x]) == x);
        assert(all.last() == rest[0]);
    } else {
        assert(all.drop_last() =~= seq![x] + rest.drop_last());
        lemma_join_cons(x, rest.drop_last());
        assert(all.last() == rest.last());
        assert(join_slash(all) =~= x + seq!['/'] + join_slash(rest));
    }
}

/// Segments without `/` joined with `/` split back into the same segments, and the joined
/// text starts with the first segment.
proof fn lemma_pieces_join(parts: Seq<Seq<char>>)
    requires
        parts.len() > 0,
        forall|k: int| 0 <= k < parts.len() ==> no_sep(#[trigger] parts[k], '/', '/'),
    ensures
        pieces(join_slash(parts), '/', '/') == parts,
        join_slash(parts).len() >= parts[0].len(),
        join_slash(parts).take(parts[0].len() as int) == parts[0],
    decreases parts.len(),
{
    if parts.len() == 1 {
        assert(join_slash(parts) == parts[0]);
        lemma_pieces_whole(parts[0], '/', '/');
        assert(seq![parts[0]] =~= parts);
        assert(parts[0].take(parts[0].len() as int) =~= parts[0]);
    } else {
        let rest = parts.drop_first();
        assert(seq![parts[0]] + rest =~= parts);
        lemma_join_cons(parts[0], rest);
        assert forall|k: int| 0 <= k < rest.len() implies no_sep(#[trigger] rest[k], '/', '/') by {
            assert(rest[k] == parts[k + 1]);
        }
        lemma_pieces_join(rest);
        lemma_pieces_cons(parts[0], '/', join_slash(rest), '/', '/');
        let j = join_slash(parts);
        assert(j.take(parts[0].len() as int) =~= parts[0]);
    }
}

/// Normalising the segments of a normal path, from any point on, rebuilds them.
proof fn lemma_run_replay(rooted: bool, parts: Seq<Seq<char>>, depth: nat, j: int)
    requires
        normal_state(rooted, (parts, depth)),
        0 <= j <= parts.len(),
    ensures
        clean_run(
            rooted,
            parts.skip(j),
            (parts.take(j), if j < depth { j as nat } else { depth }),
        ) == (parts, depth),
    decreases parts.len() - j,
{
    let st: CleanState = (parts.take(j), if j < depth { j as nat } else { depth });
    if j == parts.len() {
        assert(parts.take(j) =~= parts);
        assert(parts.skip(j) =~= Seq::<Seq<char>>::empty());
    } else {
        let seg = parts[j];
        assert(parts.skip(j)[0] == seg);
        assert(parts.skip(j).drop_first() =~= parts.skip(j + 1));
        assert(kept_segment(seg));
        assert(parts.take(j).push(seg) =~= parts.take(j + 1));
        if j < depth {
            assert(seg == seq!['.', '.']);
        } else {
            assert(seg != seq!['.', '.']);
        }
        assert(clean_step(rooted, st, seg) == (
            parts.take(j + 1),
            if j + 1 < depth { (j + 1) as nat } else { depth },
        ));
        lemma_run_replay(rooted, parts, depth, j + 1);
    }
}

/// Normalising a path twice gives what normalising it once gives: a normal path is its own
/// normal form.
pub proof fn law_cleanname_idempotent(name: Seq<char>)
    ensures
        clean_name(clean_name(name)) == clean_name(name),
{
    let rooted = name.len() > 0 && name[0] == '/';
    let init: CleanState = (Seq::empty(), 0);
    let segs = pieces(name, '/', '/');
    lemma_pieces_no_sep(name, '/', '/');
    lemma_run_normal(rooted, segs, init);
    let st = clean_run(rooted, segs, init);
    let parts = st.0;
    let o = clean_name(name);
    let e = Seq::<char>::empty();
    assert(no_sep(e, '/', '/'));
    if parts.len() == 0 {
        if rooted {
            assert(o =~= e + seq!['/'] + e);
            lemma_pieces_cons(e, '/', e, '/', '/');
            lemma_pieces_whole(e, '/', '/');
            let ps = pieces(o, '/', '/');
            assert(ps =~= seq![e, e]);
            assert(ps[0] == e && ps.drop_first()[0] == e);
            let empty = Seq::<Seq<char>>::empty();
            assert(ps.drop_first().drop_first() =~= empty);
            assert(clean_step(true, init, e) == init);
            assert(clean_run(true, empty, init) == init);
            assert(clean_run(true, ps.drop_first(), init) == init);
            assert(clean_run(true, ps, init) == init);
        } else {
            assert(o == seq!['.']);
            assert(no_sep(o, '/', '/'));
            lemma_pieces_whole(o, '/', '/');
            let ps = pieces(o, '/', '/');
            assert(ps[0] == o);
            let empty = Seq::<Seq<char>>::empty();
            assert(ps.drop_first() =~= empty);
            assert(clean_step(false, init, o) == init);
            assert(clean_run(false, empty, init) == init);
            assert(clean_run(false, ps, init) == init);
        }
    } else {
        assert forall|k: int| 0 <= k < parts.len() implies no_sep(#[trigger] parts[k], '/', '/') by {
            assert(kept_segment(parts[k]));
        }
        lemma_pieces_join(parts);
        let j = join_slash(parts);
        lemma_run_replay(rooted, parts, st.1, 0);
        assert(parts.skip(0) =~= parts);
        assert(parts.take(0) =~= Seq::<Seq<char>>::empty());
        if rooted {
            assert(o =~= e + seq!['/'] + j);
            lemma_pieces_cons(e, '/', j, '/', '/');
            lemma_clean_run_empty_first(true, parts, init);
            assert(clean_run(true, pieces(o, '/', '/'), init) == (parts, st.1));
        } else {
            assert(kept_segment(parts[0]));
            assert(j[0] == parts[0][0]) by {
                assert(j.take(parts[0].len() as int)[0] == j[0]);
            }
            assert(!is_sep(parts[0][0], '/', '/'));
            assert(clean_run(false, pieces(o, '/', '/'), init) == (parts, st.1));
        }
    }
}

/// A normal form is never empty.
pub proof fn lemma_clean_name_not_empty(name: Seq<char>)
    ensures
        clean_name(name).len() > 0,
{
    let rooted = name.len() > 0 && name[0] == '/';
    let init: CleanState = (Seq::empty(), 0);
    let segs = pieces(name, '/', '/');
    lemma_pieces_no_sep(name, '/', '/');
    lemma_run_normal(rooted, segs, init);
    let parts = clean_run(rooted, segs, init).0;
    if parts.len() > 0 && !rooted {
        assert forall|k: int| 0 <= k < parts.len() implies no_sep(#[trigger] parts[k], '/', '/') by {
            assert(kept_segment(parts[k]));
        }
        lemma_pieces_join(parts);
        assert(kept_segment(parts[0]));
    }
}

} // verus!
