//! Path handling for the routing collaborator: splitting a request path into
//! its non-empty segments. The transport layer walks its route tree along
//! these segments; an empty segment list names the root route.

use vstd::prelude::*;

verus! {

/// One possibly pending segment: the sequence holding it where it is
/// non-empty, nothing otherwise.
pub open spec fn pending(cur: Seq<char>) -> Seq<Seq<char>> {
    if cur.len() == 0 {
        Seq::empty()
    } else {
        seq![cur]
    }
}

/// The non-empty segments of `s[i..]`, with `cur` the partial segment read so
/// far.
pub open spec fn segments_from(s: Seq<char>, i: int, cur: Seq<char>) -> Seq<Seq<char>>
    decreases s.len() - i,
{
    if i < 0 || i >= s.len() {
        pending(cur)
    } else if s[i] == '/' {
        pending(cur) + segments_from(s, i + 1, Seq::empty())
    } else {
        segments_from(s, i + 1, cur.push(s[i]))
    }
}

/// The non-empty segments of a path, split on `/`.
pub open spec fn path_segments_spec(s: Seq<char>) -> Seq<Seq<char>> {
    segments_from(s, 0, Seq::empty())
}

/// Split a path into its non-empty segments: exactly
/// [`path_segments_spec`].
pub fn path_segments(path: &str) -> (r: Vec<String>)
    ensures
        r@.len() == path_segments_spec(path@).len(),
        forall|i: int| 0 <= i < r@.len() ==> (#[trigger] r@[i])@ == path_segments_spec(path@)[i],
{
    let n = path.unicode_len();
    let mut i: usize = 0;
    let mut out: Vec<String> = Vec::new();
    let mut cur = String::new();
    proof {
        assert(out@.map_values(|x: String| x@) =~= Seq::<Seq<char>>::empty());
        assert(Seq::<Seq<char>>::empty() + segments_from(path@, 0, Seq::empty())
            =~= segments_from(path@, 0, Seq::empty()));
    }
    while i < n
        invariant
            i <= n,
            n == path@.len(),
            path_segments_spec(path@) == out@.map_values(|x: String| x@) + segments_from(
                path@,
                i as int,
                cur@,
            ),
        decreases n - i,
    {
        let ghost prev_out = out@.map_values(|x: String| x@);
        let ghost prev_cur = cur@;
        let c = path.get_char(i);
        if c == '/' {
            if !cur.as_str().is_empty() {
                let ghost done = cur@;
                out.push(cur);
                cur = String::new();
                proof {
                    assert(out@.map_values(|x: String| x@) =~= prev_out + seq![done]);
                    assert(segments_from(path@, i as int, prev_cur) == pending(prev_cur)
                        + segments_from(path@, i + 1, Seq::empty()));
                    assert(pending(prev_cur) =~= seq![done]);
                    assert((prev_out + seq![done]) + segments_from(path@, i + 1, Seq::empty())
                        =~= prev_out + (seq![done] + segments_from(path@, i + 1, Seq::empty())));
                }
            } else {
                proof {
                    assert(pending(prev_cur) =~= Seq::<Seq<char>>::empty());
                    assert(pending(prev_cur) + segments_from(path@, i + 1, Seq::empty())
                        =~= segments_from(path@, i + 1, Seq::empty()));
                    assert(cur@ =~= Seq::<char>::empty());
                }
            }
        } else {
            cur.push(c);
            proof {
                assert(cur@ =~= prev_cur.push(c));
            }
        }
        i += 1;
    }
    if !cur.as_str().is_empty() {
        let ghost prev_out = out@.map_values(|x: String| x@);
        let ghost done = cur@;
        out.push(cur);
        proof {
            assert(segments_from(path@, n as int, done) =~= seq![done]);
            assert(out@.map_values(|x: String| x@) =~= prev_out + seq![done]);
        }
    } else {
        proof {
            assert(segments_from(path@, n as int, cur@) =~= Seq::<Seq<char>>::empty());
            assert(out@.map_values(|x: String| x@) + Seq::<Seq<char>>::empty() =~= out@.map_values(
                |x: String| x@,
            ));
        }
    }
    proof {
        assert(forall|k: int|
            0 <= k < out@.len() ==> (#[trigger] out@[k])@ == out@.map_values(|x: String| x@)[k]);
    }
    out
}

} // verus!
