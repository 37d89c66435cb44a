//! The path translator: maps between wire-relative names (segments joined
//! by `/`) and local paths held as vectors of segments.  A local path is
//! the bound workspace root followed by the name's segments; a name is
//! accepted only if none of its segments is empty or a parent-directory
//! traversal, so an accepted name can never resolve outside the root.

use vstd::prelude::*;
use vstd::string::*;
use crate::strutil::push_char;

verus! {

/// Splits a character sequence at every `'/'`.  The result always has at
/// least one element; empty input yields one empty segment.
pub open spec fn split_slash(s: Seq<char>) -> Seq<Seq<char>>
    decreases s.len(),
{
    if s.len() == 0 {
        seq![Seq::<char>::empty()]
    } else if s.last() == '/' {
        split_slash(s.drop_last()).push(Seq::<char>::empty())
    } else {
        let rest = split_slash(s.drop_last());
        rest.update(rest.len() - 1, rest.last().push(s.last()))
    }
}

/// Joins segments with `'/'`.
pub open spec fn join_slash(parts: Seq<Seq<char>>) -> Seq<char>
    decreases parts.len(),
{
    if parts.len() == 0 {
        Seq::<char>::empty()
    } else if parts.len() == 1 {
        parts[0]
    } else {
        join_slash(parts.drop_last()) + seq!['/'] + parts.last()
    }
}

/// The parent-directory traversal segment.
pub open spec fn dotdot() -> Seq<char> {
    seq!['.', '.']
}

/// A wire name is accepted iff every segment is non-empty and is not a
/// parent-directory traversal.
pub open spec fn wire_name_ok(s: Seq<char>) -> bool {
    forall|i: int|
        0 <= i < split_slash(s).len() ==> (#[trigger] split_slash(s)[i]).len() > 0
            && split_slash(s)[i] != dotdot()
}

/// The local path a wire name resolves to: the workspace root's segments
/// followed by the name's segments.
pub open spec fn local_path_spec(name: Seq<char>, root: Seq<Seq<char>>) -> Seq<Seq<char>> {
    root + split_slash(name)
}

/// The wire name of a local path under `root`: the segments past the
/// root, joined by `'/'`.  The root's own length is all that is used of
/// it, as the translation counts segments rather than comparing prefixes.
pub open spec fn wire_of_spec(abs: Seq<Seq<char>>, root_len: int) -> Seq<char> {
    join_slash(abs.subrange(root_len, abs.len() as int))
}

pub proof fn lemma_split_len(s: Seq<char>)
    ensures
        split_slash(s).len() >= 1,
    decreases s.len(),
{
    if s.len() == 0 {
    } else {
        lemma_split_len(s.drop_last());
    }
}

/// Joining the segments of a split gives the original sequence back.
pub proof fn lemma_join_split(s: Seq<char>)
    ensures
        join_slash(split_slash(s)) == s,
    decreases s.len(),
{
    if s.len() == 0 {
    } else {
        let st = s.drop_last();
        lemma_join_split(st);
        lemma_split_len(st);
        let x = split_slash(st);
        if s.last() == '/' {
            let w = x.push(Seq::<char>::empty());
            assert(w.drop_last() =~= x);
            assert(join_slash(w) == join_slash(x) + seq!['/'] + Seq::<char>::empty());
            assert(join_slash(w) =~= s);
        } else {
            let w = x.update(x.len() - 1, x.last().push(s.last()));
            if x.len() == 1 {
                assert(w.len() == 1);
                assert(join_slash(w) == x.last().push(s.last()));
                assert(join_slash(w) =~= s);
            } else {
                assert(w.drop_last() =~= x.drop_last());
                assert(w.last() == x.last().push(s.last()));
                assert(join_slash(w) == join_slash(x.drop_last()) + seq!['/'] + x.last().push(
                    s.last(),
                ));
                assert(join_slash(x) == join_slash(x.drop_last()) + seq!['/'] + x.last());
                assert(join_slash(w) =~= join_slash(x).push(s.last()));
                assert(join_slash(w) =~= s);
            }
        }
    }
}

/// Round-trip stability of the translator: the local path of an accepted
/// name, translated back to the wire, is the name itself, so translating
/// that wire name to a local path again gives the same local path.
pub proof fn lemma_wire_path_round_trip(name: Seq<char>, root: Seq<Seq<char>>)
    requires
        wire_name_ok(name),
    ensures
        wire_of_spec(local_path_spec(name, root), root.len() as int) == name,
        local_path_spec(wire_of_spec(local_path_spec(name, root), root.len() as int), root)
            == local_path_spec(name, root),
{
    let p = local_path_spec(name, root);
    assert(p.subrange(root.len() as int, p.len() as int) =~= split_slash(name));
    lemma_join_split(name);
}

/// Splits a wire name into its segments.
pub fn split_wire_name(name: &String) -> (r: Vec<String>)
    ensures
        r.deep_view() == split_slash(name@),
{
    let n = name.as_str().unicode_len();
    let mut segs: Vec<String> = Vec::new();
    let mut cur = String::new();
    let mut i: usize = 0;
    while i < n
        invariant
            i <= n,
            n == name@.len(),
            segs.deep_view().push(cur@) =~= split_slash(name@.subrange(0, i as int)),
        decreases n - i,
    {
        let c = name.as_str().get_char(i);
        proof {
            assert(name@.subrange(0, i + 1 as int) =~= name@.subrange(0, i as int).push(c));
            assert(name@.subrange(0, i + 1 as int).drop_last() =~= name@.subrange(0, i as int));
        }
        if c == '/' {
            segs.push(cur);
            cur = String::new();
            proof {
                assert(segs.deep_view().push(cur@) =~= split_slash(name@.subrange(0, i + 1 as int)));
            }
        } else {
            push_char(&mut cur, c);
            proof {
                let pre = split_slash(name@.subrange(0, i as int));
                assert(segs.deep_view().push(cur@) =~= pre.update(pre.len() - 1, pre.last().push(c)));
            }
        }
        i += 1;
    }
    proof {
        assert(name@.subrange(0, n as int) =~= name@);
    }
    segs.push(cur);
    segs
}

/// True iff this segment is empty or a parent-directory traversal.
fn bad_segment(seg: &String) -> (r: bool)
    ensures
        r <==> (seg@.len() == 0 || seg@ == dotdot()),
{
    let n = seg.as_str().unicode_len();
    if n == 0 {
        true
    } else if n == 2 {
        let a = seg.as_str().get_char(0);
        let b = seg.as_str().get_char(1);
        proof {
            if a == '.' && b == '.' {
                assert(seg@ =~= dotdot());
            }
        }
        a == '.' && b == '.'
    } else {
        proof {
            assert(seg@ != dotdot());
        }
        false
    }
}

/// Resolves a wire name under the given workspace root.  Returns the
/// local path as segments exactly when the name is accepted; a name with
/// an empty or parent-traversal segment is rejected.
pub fn to_local(name: &String, root: &Vec<String>) -> (r: Option<Vec<String>>)
    ensures
        match r {
            Some(p) => wire_name_ok(name@) && p.deep_view() == local_path_spec(
                name@,
                root.deep_view(),
            ),
            None => !wire_name_ok(name@),
        },
{
    let segs = split_wire_name(name);
    let mut k: usize = 0;
    while k < segs.len()
        invariant
            k <= segs.len(),
            segs.deep_view() == split_slash(name@),
            forall|i: int|
                0 <= i < k ==> (#[trigger] split_slash(name@)[i]).len() > 0 && split_slash(
                    name@,
                )[i] != dotdot(),
        decreases segs.len() - k,
    {
        if bad_segment(&segs[k]) {
            proof {
                assert(segs.deep_view()[k as int] == segs[k as int]@);
                assert(split_slash(name@)[k as int].len() == 0 || split_slash(name@)[k as int]
                    == dotdot());
                assert(!wire_name_ok(name@));
            }
            return None;
        }
        k += 1;
    }
    let mut out: Vec<String> = Vec::new();
    let mut j: usize = 0;
    while j < root.len()
        invariant
            j <= root.len(),
            out@.len() == j,
            forall|i: int| 0 <= i < j ==> out@[i]@ == root@[i]@,
        decreases root.len() - j,
    {
        let seg = root[j].clone();
        proof {
            assert(seg@ == root@[j as int]@);
        }
        out.push(seg);
        j += 1;
    }
    let mut m: usize = 0;
    while m < segs.len()
        invariant
            m <= segs.len(),
            segs.deep_view() == split_slash(name@),
            out@.len() == root@.len() + m,
            forall|i: int| 0 <= i < root@.len() ==> out@[i]@ == root@[i]@,
            forall|i: int|
                root@.len() <= i < out@.len() ==> out@[i]@ == split_slash(name@)[i - root@.len()],
        decreases segs.len() - m,
    {
        let seg = segs[m].clone();
        proof {
            assert(seg@ == segs@[m as int]@);
            assert(segs.deep_view()[m as int] == segs@[m as int]@);
        }
        out.push(seg);
        m += 1;
    }
    proof {
        assert forall|i: int| 0 <= i < out@.len() implies out.deep_view()[i] == local_path_spec(
            name@,
            root.deep_view(),
        )[i] by {
            assert(out.deep_view()[i] == out@[i]@);
            if i < root@.len() {
                assert(local_path_spec(name@, root.deep_view())[i] == root@[i]@);
            } else {
                assert(local_path_spec(name@, root.deep_view())[i] == split_slash(name@)[i
                    - root@.len()]);
            }
        }
        assert(out.deep_view() =~= local_path_spec(name@, root.deep_view()));
    }
    Some(out)
}

/// Joins the segments of `parts` from index `from` on with `'/'`.
pub fn join_from(parts: &Vec<String>, from: usize) -> (r: String)
    requires
        from <= parts.len(),
    ensures
        r@ == wire_of_spec(parts.deep_view(), from as int),
{
    let mut out = String::new();
    let mut k: usize = from;
    while k < parts.len()
        invariant
            from <= k <= parts.len(),
            out@ =~= join_slash(parts.deep_view().subrange(from as int, k as int)),
        decreases parts.len() - k,
    {
        proof {
            let sub1 = parts.deep_view().subrange(from as int, k + 1 as int);
            assert(sub1.drop_last() =~= parts.deep_view().subrange(from as int, k as int));
            assert(sub1.last() == parts.deep_view()[k as int]);
        }
        if k > from {
            push_char(&mut out, '/');
        }
        out.append(parts[k].as_str());
        k += 1;
    }
    proof {
        assert(parts.deep_view().subrange(from as int, parts.len() as int) =~= parts
            .deep_view()
            .subrange(from as int, parts.deep_view().len() as int));
    }
    out
}

/// Joins the first `upto` segments of `parts` with `'/'`.
pub fn join_prefix(parts: &Vec<String>, upto: usize) -> (r: String)
    requires
        upto <= parts.len(),
    ensures
        r@ == join_slash(parts.deep_view().subrange(0, upto as int)),
{
    let mut out = String::new();
    let mut k: usize = 0;
    while k < upto
        invariant
            k <= upto <= parts.len(),
            out@ =~= join_slash(parts.deep_view().subrange(0, k as int)),
        decreases upto - k,
    {
        proof {
            let sub1 = parts.deep_view().subrange(0, k + 1 as int);
            assert(sub1.drop_last() =~= parts.deep_view().subrange(0, k as int));
            assert(sub1.last() == parts.deep_view()[k as int]);
        }
        if k > 0 {
            push_char(&mut out, '/');
        }
        out.append(parts[k].as_str());
        k += 1;
    }
    out
}

/// The wire name of a local path whose first `root_len` segments are the
/// workspace root.
pub fn to_wire(abs: &Vec<String>, root_len: usize) -> (r: String)
    requires
        root_len <= abs.len(),
    ensures
        r@ == wire_of_spec(abs.deep_view(), root_len as int),
{
    join_from(abs, root_len)
}

/// True iff `abs` lies strictly under `root`: it is longer and agrees
/// with `root` on the root's own segments.
pub fn is_under(abs: &Vec<String>, root: &Vec<String>) -> (r: bool)
    ensures
        r <==> (abs.deep_view().len() > root.deep_view().len() && abs.deep_view().subrange(
            0,
            root.deep_view().len() as int,
        ) == root.deep_view()),
{
    if abs.len() <= root.len() {
        proof {
            assert(!(abs.deep_view().len() > root.deep_view().len()));
        }
        return false;
    }
    let mut k: usize = 0;
    while k < root.len()
        invariant
            k <= root.len(),
            root.len() < abs.len(),
            forall|i: int| 0 <= i < k ==> abs.deep_view()[i] == root.deep_view()[i],
        decreases root.len() - k,
    {
        if !(abs[k] == root[k]) {
            proof {
                assert(abs.deep_view().subrange(0, root.deep_view().len() as int)[k as int]
                    != root.deep_view()[k as int]);
            }
            return false;
        }
        k += 1;
    }
    proof {
        assert(abs.deep_view().subrange(0, root.deep_view().len() as int) =~= root.deep_view());
    }
    true
}

} // verus!
